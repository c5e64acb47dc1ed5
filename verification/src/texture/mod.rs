//! CPU texture data, sampler metadata, atlas packing and mipmaps.

pub mod format;
pub mod sampler;
pub mod texture;
pub mod mipmap;
pub mod video;
pub mod atlas;
