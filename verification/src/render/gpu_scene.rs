//! The renderer's registry of uploaded resources: meshes, materials,
//! texture metadata and lights by id. What a mesh, a material or a light
//! holds is the renderer's business, so their types are parameters here.

use std::collections::HashMap;

use vstd::prelude::*;

use crate::ids::{LightId, MaterialId, MeshId, TextureId, ValidationError};
use crate::render::sort::DrawSubmission;
use crate::render::texture_store::{register_result, GpuTexture, TextureStore};
use crate::texture::sampler::Sampler;
use crate::texture::texture::{effective_levels, Texture2D, Texture3D, TextureCube};

verus! {

broadcast use vstd::std_specs::hash::group_hash_axioms;

/// Uploaded meshes (`Mesh`), registered materials (`Material`), texture
/// metadata and lights (`Light`), each keyed by its raw id.
pub struct GpuScene<Mesh, Material, Light> {
    meshes: HashMap<u64, Mesh>,
    materials: HashMap<u64, Material>,
    textures: TextureStore,
    lights: HashMap<u64, Light>,
}

/// What registering under an id answers: the null id is invalid.
pub open spec fn id_result(raw: u64) -> Result<(), ValidationError> {
    if raw == 0 {
        Err(ValidationError::InvalidId)
    } else {
        Ok(())
    }
}

/// One draw that a frame issues: the position of the submission in the
/// frame's draw list, its resources, and the dynamic uniform offsets.
#[derive(Clone, Copy, Debug, PartialEq, Eq, Structural)]
pub struct DrawCall {
    /// Position in the frame's draw list, opaque draws first.
    pub draw_index: usize,
    /// Mesh to draw.
    pub mesh_id: MeshId,
    /// Material to bind.
    pub material_id: MaterialId,
    /// Dynamic offset into the object uniform buffer.
    pub object_offset: u32,
    /// Dynamic offset into the material uniform buffer.
    pub material_offset: u32,
}

/// The draws of `draws` (whose first entry has index `first`) that a frame
/// issues: those whose mesh and material are both registered, each with
/// offsets `index * stride`, cut to `u32`.
pub open spec fn issued_draws(
    meshes: Set<u64>,
    materials: Set<u64>,
    draws: Seq<DrawSubmission>,
    object_stride: u64,
    material_stride: u64,
) -> Seq<DrawCall>
    decreases draws.len(),
{
    if draws.len() == 0 {
        Seq::empty()
    } else {
        let rest = issued_draws(meshes, materials, draws.drop_last(), object_stride, material_stride);
        let i = draws.len() - 1;
        let d = draws.last();
        if meshes.contains(d.mesh_id.0) && materials.contains(d.material_id.0) {
            rest.push(
                DrawCall {
                    draw_index: i as usize,
                    mesh_id: d.mesh_id,
                    material_id: d.material_id,
                    object_offset: (i * object_stride) as u32,
                    material_offset: (i * material_stride) as u32,
                },
            )
        } else {
            rest
        }
    }
}

impl<Mesh, Material, Light> GpuScene<Mesh, Material, Light> {
    /// Registered meshes by raw id.
    pub closed spec fn mesh_map(&self) -> Map<u64, Mesh> {
        self.meshes@
    }

    /// Registered materials by raw id.
    pub closed spec fn material_map(&self) -> Map<u64, Material> {
        self.materials@
    }

    /// Registered texture metadata by raw id.
    pub closed spec fn texture_map(&self) -> Map<u64, GpuTexture> {
        self.textures@
    }

    /// Registered lights by raw id.
    pub closed spec fn light_map(&self) -> Map<u64, Light> {
        self.lights@
    }

    /// Whether only the meshes may differ between `self` and `other`.
    pub open spec fn same_but_meshes(&self, other: &Self) -> bool {
        &&& self.material_map() == other.material_map()
        &&& self.texture_map() == other.texture_map()
        &&& self.light_map() == other.light_map()
    }

    /// Whether only the materials may differ between `self` and `other`.
    pub open spec fn same_but_materials(&self, other: &Self) -> bool {
        &&& self.mesh_map() == other.mesh_map()
        &&& self.texture_map() == other.texture_map()
        &&& self.light_map() == other.light_map()
    }

    /// Whether only the texture metadata may differ between `self` and `other`.
    pub open spec fn same_but_textures(&self, other: &Self) -> bool {
        &&& self.mesh_map() == other.mesh_map()
        &&& self.material_map() == other.material_map()
        &&& self.light_map() == other.light_map()
    }

    /// Whether only the lights may differ between `self` and `other`.
    pub open spec fn same_but_lights(&self, other: &Self) -> bool {
        &&& self.mesh_map() == other.mesh_map()
        &&& self.material_map() == other.material_map()
        &&& self.texture_map() == other.texture_map()
    }

    /// Creates an empty registry.
    pub fn new() -> (s: GpuScene<Mesh, Material, Light>)
        ensures
            s.mesh_map() == Map::<u64, Mesh>::empty(),
            s.material_map() == Map::<u64, Material>::empty(),
            s.texture_map() == Map::<u64, GpuTexture>::empty(),
            s.light_map() == Map::<u64, Light>::empty(),
    {
        GpuScene {
            meshes: HashMap::new(),
            materials: HashMap::new(),
            textures: TextureStore::new(),
            lights: HashMap::new(),
        }
    }

    /// Stores an uploaded mesh under `mesh_id`, replacing any earlier one;
    /// the null id is refused with `InvalidId`, changing nothing.
    pub fn register_mesh(&mut self, mesh_id: MeshId, mesh: Mesh) -> (r: Result<(), ValidationError>)
        ensures
            r == id_result(mesh_id.0),
            final(self).mesh_map() == if r is Ok {
                old(self).mesh_map().insert(mesh_id.0, mesh)
            } else {
                old(self).mesh_map()
            },
            final(self).same_but_meshes(old(self)),
    {
        if mesh_id.is_null() {
            return Err(ValidationError::InvalidId);
        }
        self.meshes.insert(mesh_id.get(), mesh);
        Ok(())
    }

    /// Stores a material under `material_id`, replacing any earlier one; the
    /// null id is refused with `InvalidId`, changing nothing.
    pub fn register_material(&mut self, material_id: MaterialId, material: Material) -> (r: Result<
        (),
        ValidationError,
    >)
        ensures
            r == id_result(material_id.0),
            final(self).material_map() == if r is Ok {
                old(self).material_map().insert(material_id.0, material)
            } else {
                old(self).material_map()
            },
            final(self).same_but_materials(old(self)),
    {
        if material_id.is_null() {
            return Err(ValidationError::InvalidId);
        }
        self.materials.insert(material_id.get(), material);
        Ok(())
    }

    /// Stores a light under `light_id`, replacing any earlier one; the null
    /// id is refused with `InvalidId`, changing nothing.
    pub fn register_light(&mut self, light_id: LightId, light: Light) -> (r: Result<(), ValidationError>)
        ensures
            r == id_result(light_id.0),
            final(self).light_map() == if r is Ok {
                old(self).light_map().insert(light_id.0, light)
            } else {
                old(self).light_map()
            },
            final(self).same_but_lights(old(self)),
    {
        if light_id.is_null() {
            return Err(ValidationError::InvalidId);
        }
        self.lights.insert(light_id.get(), light);
        Ok(())
    }

    /// Registers validated 2D texture metadata and sampler state, as
    /// [`TextureStore::register_texture2d`] does.
    pub fn register_texture2d(&mut self, texture_id: TextureId, texture: &Texture2D, sampler: Sampler) -> (r:
        Result<(), ValidationError>)
        ensures
            r == register_result(texture_id, texture.is_valid()),
            r is Ok ==> final(self).texture_map() == old(self).texture_map().insert(
                texture_id.0,
                GpuTexture {
                    width: texture.width,
                    height: texture.height,
                    format: texture.format,
                    sampler,
                    mip_levels: effective_levels(texture.mip_levels),
                },
            ),
            r is Err ==> final(self).texture_map() == old(self).texture_map(),
            final(self).same_but_textures(old(self)),
    {
        self.textures.register_texture2d(texture_id, texture, sampler)
    }

    /// Registers validated cube texture metadata and sampler state, as
    /// [`TextureStore::register_texture_cube`] does.
    pub fn register_texture_cube(&mut self, texture_id: TextureId, texture: &TextureCube, sampler: Sampler) -> (r:
        Result<(), ValidationError>)
        ensures
            r == register_result(texture_id, texture.is_valid()),
            r is Ok ==> final(self).texture_map() == old(self).texture_map().insert(
                texture_id.0,
                GpuTexture {
                    width: texture.size,
                    height: texture.size,
                    format: texture.format,
                    sampler,
                    mip_levels: effective_levels(texture.mip_levels),
                },
            ),
            r is Err ==> final(self).texture_map() == old(self).texture_map(),
            final(self).same_but_textures(old(self)),
    {
        self.textures.register_texture_cube(texture_id, texture, sampler)
    }

    /// Registers validated 3D texture metadata and sampler state, as
    /// [`TextureStore::register_texture3d`] does.
    pub fn register_texture3d(&mut self, texture_id: TextureId, texture: &Texture3D, sampler: Sampler) -> (r:
        Result<(), ValidationError>)
        ensures
            r == register_result(texture_id, texture.is_valid()),
            r is Ok ==> final(self).texture_map() == old(self).texture_map().insert(
                texture_id.0,
                GpuTexture {
                    width: texture.width,
                    height: texture.height,
                    format: texture.format,
                    sampler,
                    mip_levels: effective_levels(texture.mip_levels),
                },
            ),
            r is Err ==> final(self).texture_map() == old(self).texture_map(),
            final(self).same_but_textures(old(self)),
    {
        self.textures.register_texture3d(texture_id, texture, sampler)
    }

    /// Removes a mesh; returns whether it was registered.
    pub fn unregister_mesh(&mut self, mesh_id: MeshId) -> (removed: bool)
        ensures
            removed == old(self).mesh_map().contains_key(mesh_id.0),
            final(self).mesh_map() == old(self).mesh_map().remove(mesh_id.0),
            final(self).same_but_meshes(old(self)),
    {
        let key = mesh_id.get();
        self.meshes.remove(&key).is_some()
    }

    /// Removes a material; returns whether it was registered.
    pub fn unregister_material(&mut self, material_id: MaterialId) -> (removed: bool)
        ensures
            removed == old(self).material_map().contains_key(material_id.0),
            final(self).material_map() == old(self).material_map().remove(material_id.0),
            final(self).same_but_materials(old(self)),
    {
        let key = material_id.get();
        self.materials.remove(&key).is_some()
    }

    /// Removes a texture's metadata; returns whether it was registered.
    pub fn unregister_texture(&mut self, texture_id: TextureId) -> (removed: bool)
        ensures
            removed == old(self).texture_map().contains_key(texture_id.0),
            final(self).texture_map() == old(self).texture_map().remove(texture_id.0),
            final(self).same_but_textures(old(self)),
    {
        self.textures.unregister_texture(texture_id)
    }

    /// Removes a light; returns whether it was registered.
    pub fn unregister_light(&mut self, light_id: LightId) -> (removed: bool)
        ensures
            removed == old(self).light_map().contains_key(light_id.0),
            final(self).light_map() == old(self).light_map().remove(light_id.0),
            final(self).same_but_lights(old(self)),
    {
        let key = light_id.get();
        self.lights.remove(&key).is_some()
    }

    /// Removes every mesh.
    pub fn clear_meshes(&mut self)
        ensures
            final(self).mesh_map() == Map::<u64, Mesh>::empty(),
            final(self).same_but_meshes(old(self)),
    {
        self.meshes.clear();
    }

    /// Removes every material.
    pub fn clear_materials(&mut self)
        ensures
            final(self).material_map() == Map::<u64, Material>::empty(),
            final(self).same_but_materials(old(self)),
    {
        self.materials.clear();
    }

    /// Removes all texture metadata.
    pub fn clear_textures(&mut self)
        ensures
            final(self).texture_map() == Map::<u64, GpuTexture>::empty(),
            final(self).same_but_textures(old(self)),
    {
        self.textures.clear_textures();
    }

    /// Removes every light.
    pub fn clear_lights(&mut self)
        ensures
            final(self).light_map() == Map::<u64, Light>::empty(),
            final(self).same_but_lights(old(self)),
    {
        self.lights.clear();
    }

    /// The mesh registered under `mesh_id`.
    pub fn mesh(&self, mesh_id: MeshId) -> (r: Option<&Mesh>)
        ensures
            match r {
                Some(m) => self.mesh_map().contains_key(mesh_id.0) && *m == self.mesh_map()[mesh_id.0],
                None => !self.mesh_map().contains_key(mesh_id.0),
            },
    {
        let key = mesh_id.get();
        self.meshes.get(&key)
    }

    /// The material registered under `material_id`.
    pub fn material(&self, material_id: MaterialId) -> (r: Option<&Material>)
        ensures
            match r {
                Some(m) => self.material_map().contains_key(material_id.0) && *m == self.material_map()[material_id.0],
                None => !self.material_map().contains_key(material_id.0),
            },
    {
        let key = material_id.get();
        self.materials.get(&key)
    }

    /// The texture metadata registered under `texture_id`.
    pub fn texture(&self, texture_id: TextureId) -> (r: Option<&GpuTexture>)
        ensures
            match r {
                Some(t) => self.texture_map().contains_key(texture_id.0) && *t == self.texture_map()[texture_id.0],
                None => !self.texture_map().contains_key(texture_id.0),
            },
    {
        self.textures.texture(texture_id)
    }

    /// The texture metadata registry.
    pub fn textures(&self) -> (t: &TextureStore)
        ensures
            t@ == self.texture_map(),
    {
        &self.textures
    }

    /// The light registered under `light_id`.
    pub fn light(&self, light_id: LightId) -> (r: Option<&Light>)
        ensures
            match r {
                Some(l) => self.light_map().contains_key(light_id.0) && *l == self.light_map()[light_id.0],
                None => !self.light_map().contains_key(light_id.0),
            },
    {
        let key = light_id.get();
        self.lights.get(&key)
    }

    /// The draws a frame issues for its sorted opaque and transparent draws,
    /// in that order: draws whose mesh or material is not registered are
    /// skipped, and each issued draw binds the uniforms at `index * stride`,
    /// where `index` counts every draw of the frame.
    pub fn draw_calls(
        &self,
        opaque: &Vec<DrawSubmission>,
        transparent: &Vec<DrawSubmission>,
        object_stride: u64,
        material_stride: u64,
    ) -> (r: Vec<DrawCall>)
        requires
            opaque@.len() + transparent@.len() <= usize::MAX,
            (opaque@.len() + transparent@.len()) * object_stride <= u64::MAX,
            (opaque@.len() + transparent@.len()) * material_stride <= u64::MAX,
        ensures
            r@ == issued_draws(
                self.mesh_map().dom(),
                self.material_map().dom(),
                opaque@ + transparent@,
                object_stride,
                material_stride,
            ),
    {
        let ghost all = opaque@ + transparent@;
        let total = opaque.len() + transparent.len();
        let mut out: Vec<DrawCall> = Vec::new();
        let mut i: usize = 0;
        while i < total
            invariant
                all == opaque@ + transparent@,
                total == all.len(),
                i <= total,
                total * object_stride <= u64::MAX,
                total * material_stride <= u64::MAX,
                out@ == issued_draws(
                    self.mesh_map().dom(),
                    self.material_map().dom(),
                    all.subrange(0, i as int),
                    object_stride,
                    material_stride,
                ),
            decreases total - i,
        {
            let d = if i < opaque.len() {
                opaque[i]
            } else {
                transparent[i - opaque.len()]
            };
            proof {
                assert(d == all[i as int]);
                assert(all.subrange(0, i + 1).drop_last() =~= all.subrange(0, i as int));
                assert(i * object_stride <= total * object_stride) by (nonlinear_arith)
                    requires
                        i <= total,
                ;
                assert(i * material_stride <= total * material_stride) by (nonlinear_arith)
                    requires
                        i <= total,
                ;
            }
            let mesh_key = d.mesh_id.get();
            let material_key = d.material_id.get();
            if self.meshes.contains_key(&mesh_key) && self.materials.contains_key(&material_key) {
                let object_at: u64 = i as u64 * object_stride;
                let material_at: u64 = i as u64 * material_stride;
                #[verifier::truncate]
                let object_offset = object_at as u32;
                #[verifier::truncate]
                let material_offset = material_at as u32;
                out.push(
                    DrawCall {
                        draw_index: i,
                        mesh_id: d.mesh_id,
                        material_id: d.material_id,
                        object_offset,
                        material_offset,
                    },
                );
            }
            i += 1;
        }
        proof {
            assert(all.subrange(0, total as int) =~= all);
        }
        out
    }

    /// Number of registered lights.
    pub fn light_count(&self) -> (n: usize)
        ensures
            n == self.light_map().len(),
    {
        self.lights.len()
    }

    /// Number of registered meshes.
    pub fn mesh_count(&self) -> (n: usize)
        ensures
            n == self.mesh_map().len(),
    {
        self.meshes.len()
    }

    /// Number of registered materials.
    pub fn material_count(&self) -> (n: usize)
        ensures
            n == self.material_map().len(),
    {
        self.materials.len()
    }
}

impl<Mesh, Material, Light> Default for GpuScene<Mesh, Material, Light> {
    fn default() -> (s: GpuScene<Mesh, Material, Light>)
        ensures
            s.mesh_map() == Map::<u64, Mesh>::empty(),
            s.material_map() == Map::<u64, Material>::empty(),
            s.texture_map() == Map::<u64, GpuTexture>::empty(),
            s.light_map() == Map::<u64, Light>::empty(),
    {
        GpuScene::new()
    }
}

/// A mesh registered under a non-null id is what a lookup of that id gives
/// back, and unregistering it afterwards leaves the meshes as they were
/// without that id.
pub proof fn lemma_register_mesh_then_unregister<Mesh, Material, Light>(
    s0: &GpuScene<Mesh, Material, Light>,
    s1: &GpuScene<Mesh, Material, Light>,
    s2: &GpuScene<Mesh, Material, Light>,
    mesh_id: MeshId,
    mesh: Mesh,
)
    requires
        mesh_id.0 != 0,
        s1.mesh_map() == s0.mesh_map().insert(mesh_id.0, mesh),
        s2.mesh_map() == s1.mesh_map().remove(mesh_id.0),
    ensures
        s1.mesh_map().contains_key(mesh_id.0),
        s1.mesh_map()[mesh_id.0] == mesh,
        s2.mesh_map() == s0.mesh_map().remove(mesh_id.0),
        !s0.mesh_map().contains_key(mesh_id.0) ==> s2.mesh_map() == s0.mesh_map(),
{
    assert(s2.mesh_map() =~= s0.mesh_map().remove(mesh_id.0));
    if !s0.mesh_map().contains_key(mesh_id.0) {
        assert(s2.mesh_map() =~= s0.mesh_map());
    }
}

} // verus!
