//! Renderer-side texture metadata registry, keyed by texture id.

use std::collections::HashMap;

use vstd::prelude::*;

use crate::ids::{TextureId, ValidationError};
use crate::texture::format::TextureFormat;
use crate::texture::sampler::Sampler;
use crate::texture::texture::{effective_levels, Texture2D, Texture3D, TextureCube};

verus! {

broadcast use vstd::std_specs::hash::group_hash_axioms;

/// Texture metadata the renderer keeps per registered texture.
#[derive(Clone, Copy, Debug, PartialEq, Eq, Structural)]
pub struct GpuTexture {
    /// Texture width.
    pub width: u32,
    /// Texture height.
    pub height: u32,
    /// CPU texture format.
    pub format: TextureFormat,
    /// Sampler state.
    pub sampler: Sampler,
    /// Stored mip levels, at least one.
    pub mip_levels: u32,
}

/// Registered texture metadata by texture id.
pub struct TextureStore {
    textures: HashMap<u64, GpuTexture>,
}

impl View for TextureStore {
    type V = Map<u64, GpuTexture>;

    closed spec fn view(&self) -> Map<u64, GpuTexture> {
        self.textures@
    }
}

/// What `register_*` answers for a texture id and the texture's validity.
pub open spec fn register_result(texture_id: TextureId, valid: bool) -> Result<(), ValidationError> {
    if texture_id.0 == 0 {
        Err(ValidationError::InvalidId)
    } else if !valid {
        Err(ValidationError::OutOfRange)
    } else {
        Ok(())
    }
}

impl TextureStore {
    /// Creates an empty registry.
    pub fn new() -> (s: TextureStore)
        ensures
            s@ == Map::<u64, GpuTexture>::empty(),
    {
        TextureStore { textures: HashMap::new() }
    }

    /// Stores `entry` under `texture_id` after the id check and the texture
    /// check have passed.
    fn store(&mut self, texture_id: TextureId, valid: Result<(), ValidationError>, entry: GpuTexture) -> (r:
        Result<(), ValidationError>)
        requires
            valid is Ok || valid == Err::<(), ValidationError>(ValidationError::OutOfRange),
        ensures
            r == register_result(texture_id, valid is Ok),
            r is Ok ==> final(self)@ == old(self)@.insert(texture_id.0, entry),
            r is Err ==> final(self)@ == old(self)@,
    {
        if texture_id.is_null() {
            return Err(ValidationError::InvalidId);
        }
        match valid {
            Ok(()) => {},
            Err(e) => return Err(e),
        }
        self.textures.insert(texture_id.get(), entry);
        Ok(())
    }

    /// Registers validated 2D texture metadata and sampler state. Fails with
    /// `InvalidId` for the null id and with `OutOfRange` for an invalid
    /// texture, changing nothing.
    pub fn register_texture2d(&mut self, texture_id: TextureId, texture: &Texture2D, sampler: Sampler) -> (r:
        Result<(), ValidationError>)
        ensures
            r == register_result(texture_id, texture.is_valid()),
            r is Ok ==> final(self)@ == old(self)@.insert(
                texture_id.0,
                GpuTexture {
                    width: texture.width,
                    height: texture.height,
                    format: texture.format,
                    sampler,
                    mip_levels: effective_levels(texture.mip_levels),
                },
            ),
            r is Err ==> final(self)@ == old(self)@,
    {
        let valid = if texture_id.is_null() {
            Ok(())
        } else {
            texture.validate()
        };
        let entry = GpuTexture {
            width: texture.width,
            height: texture.height,
            format: texture.format,
            sampler,
            mip_levels: if texture.mip_levels == 0 {
                1
            } else {
                texture.mip_levels
            },
        };
        self.store(texture_id, valid, entry)
    }

    /// Registers validated cube texture metadata and sampler state. Fails
    /// with `InvalidId` for the null id and with `OutOfRange` for an invalid
    /// texture, changing nothing.
    pub fn register_texture_cube(&mut self, texture_id: TextureId, texture: &TextureCube, sampler: Sampler) -> (r:
        Result<(), ValidationError>)
        ensures
            r == register_result(texture_id, texture.is_valid()),
            r is Ok ==> final(self)@ == old(self)@.insert(
                texture_id.0,
                GpuTexture {
                    width: texture.size,
                    height: texture.size,
                    format: texture.format,
                    sampler,
                    mip_levels: effective_levels(texture.mip_levels),
                },
            ),
            r is Err ==> final(self)@ == old(self)@,
    {
        let valid = if texture_id.is_null() {
            Ok(())
        } else {
            texture.validate()
        };
        let entry = GpuTexture {
            width: texture.size,
            height: texture.size,
            format: texture.format,
            sampler,
            mip_levels: if texture.mip_levels == 0 {
                1
            } else {
                texture.mip_levels
            },
        };
        self.store(texture_id, valid, entry)
    }

    /// Registers validated 3D texture metadata and sampler state. Fails with
    /// `InvalidId` for the null id and with `OutOfRange` for an invalid
    /// texture, changing nothing.
    pub fn register_texture3d(&mut self, texture_id: TextureId, texture: &Texture3D, sampler: Sampler) -> (r:
        Result<(), ValidationError>)
        ensures
            r == register_result(texture_id, texture.is_valid()),
            r is Ok ==> final(self)@ == old(self)@.insert(
                texture_id.0,
                GpuTexture {
                    width: texture.width,
                    height: texture.height,
                    format: texture.format,
                    sampler,
                    mip_levels: effective_levels(texture.mip_levels),
                },
            ),
            r is Err ==> final(self)@ == old(self)@,
    {
        let valid = if texture_id.is_null() {
            Ok(())
        } else {
            texture.validate()
        };
        let entry = GpuTexture {
            width: texture.width,
            height: texture.height,
            format: texture.format,
            sampler,
            mip_levels: if texture.mip_levels == 0 {
                1
            } else {
                texture.mip_levels
            },
        };
        self.store(texture_id, valid, entry)
    }

    /// Removes the metadata of `texture_id`; returns whether it was registered.
    pub fn unregister_texture(&mut self, texture_id: TextureId) -> (removed: bool)
        ensures
            removed == old(self)@.contains_key(texture_id.0),
            final(self)@ == old(self)@.remove(texture_id.0),
    {
        let key = texture_id.get();
        let r = self.textures.remove(&key);
        r.is_some()
    }

    /// Removes every entry.
    pub fn clear_textures(&mut self)
        ensures
            final(self)@ == Map::<u64, GpuTexture>::empty(),
    {
        self.textures.clear();
    }

    /// Returns the metadata of `texture_id`.
    pub fn texture(&self, texture_id: TextureId) -> (r: Option<&GpuTexture>)
        ensures
            match r {
                Some(t) => self@.contains_key(texture_id.0) && *t == self@[texture_id.0],
                None => !self@.contains_key(texture_id.0),
            },
    {
        let key = texture_id.get();
        self.textures.get(&key)
    }

    /// Returns the number of registered textures.
    pub fn len(&self) -> (n: usize)
        ensures
            n == self@.len(),
    {
        self.textures.len()
    }
}

} // verus!
