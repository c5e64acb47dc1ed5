//! Texture whose base level is replaced frame by frame.

use vstd::prelude::*;

use crate::ids::ValidationError;
use crate::texture::format::expected_len_spec;
use crate::texture::texture::Texture2D;

verus! {

/// A mutable CPU-side texture updated every frame.
#[derive(Clone, Debug, PartialEq, Eq)]
pub struct VideoTexture {
    /// The current frame.
    pub texture: Texture2D,
    /// Number of frames replaced so far (saturating).
    pub frame_index: u64,
    /// Whether the texture changed since the last upload.
    pub dirty: bool,
}

impl VideoTexture {
    /// Creates a video texture from its first frame; it starts dirty.
    pub fn new(texture: Texture2D) -> (v: VideoTexture)
        ensures
            v.texture == texture,
            v.frame_index == 0,
            v.dirty,
    {
        VideoTexture { texture, frame_index: 0, dirty: true }
    }

    /// Replaces the current frame with `data` and marks the texture dirty.
    /// `data` must be exactly one base level long.
    pub fn update_frame(&mut self, data: &[u8]) -> (r: Result<(), ValidationError>)
        ensures
            ({
                let base = expected_len_spec(
                    old(self).texture.format,
                    old(self).texture.width,
                    old(self).texture.height,
                    1,
                );
                if base == Ok::<usize, ValidationError>(data@.len() as usize) {
                    &&& r is Ok
                    &&& final(self).texture == (Texture2D {
                        data: final(self).texture.data,
                        ..old(self).texture
                    })
                    &&& final(self).texture.data@ == data@
                    &&& final(self).frame_index == (if old(self).frame_index == u64::MAX {
                        u64::MAX
                    } else {
                        (old(self).frame_index + 1) as u64
                    })
                    &&& final(self).dirty
                } else {
                    &&& r == Err::<(), ValidationError>(ValidationError::OutOfRange)
                    &&& *final(self) == *old(self)
                }
            }),
    {
        let base = self.texture.base_level_len()?;
        if data.len() != base {
            return Err(ValidationError::OutOfRange);
        }
        self.texture.data.clear();
        self.texture.data.extend_from_slice(data);
        assert(self.texture.data@ =~= data@);
        self.frame_index = self.frame_index.saturating_add(1);
        self.dirty = true;
        Ok(())
    }

    /// Clears the dirty flag.
    pub fn mark_clean(&mut self)
        ensures
            *final(self) == (VideoTexture { dirty: false, ..*old(self) }),
    {
        self.dirty = false;
    }
}

} // verus!
