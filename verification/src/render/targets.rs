//! Render target kinds and texture byte sizes.

use vstd::prelude::*;

use crate::ids::{GpuError, ScenixError, TextureId, ValidationError};
use crate::texture::format::{format_bytes_per_pixel, format_is_compressed, level_byte_len, TextureFormat};

verus! {

/// Backend that a renderer instance draws into.
#[derive(Clone, Copy, Debug, PartialEq, Eq, Structural, Hash)]
pub enum RenderTargetMode {
    /// Frames are presented to a platform surface.
    Surface,
    /// Frames are rendered into an offscreen texture.
    Headless,
}

/// Kind of a renderer-owned render target.
#[derive(Clone, Copy, Debug, PartialEq, Eq, Structural, Hash)]
pub enum RenderTargetKind {
    /// Colour target rendered as a 2D texture.
    Color2D,
    /// HDR colour target rendered as a 2D texture.
    Hdr2D,
    /// Depth-only target.
    Depth,
    /// Cube target, captured face by face through 2D views.
    Cube,
}

/// Render pass family used to pick a pipeline.
#[derive(Clone, Copy, Debug, PartialEq, Eq, Structural, Hash)]
pub enum RenderPassKind {
    /// Opaque G-buffer geometry pass.
    Geometry,
    /// Deferred lighting resolve pass.
    Lighting,
    /// Forward transparent or unlit pass.
    Forward,
    /// Depth-only shadow pass.
    Shadow,
}

/// GPU texel format of a render target, as far as its size depends on it.
#[derive(Clone, Copy, Debug, PartialEq, Eq, Structural, Hash)]
pub enum TargetFormat {
    /// Four 16-bit float channels.
    Rgba16Float,
    /// One 32-bit float depth channel.
    Depth32Float,
    /// Four 8-bit normalized linear channels.
    Rgba8Unorm,
    /// Four 8-bit normalized sRGB channels.
    Rgba8UnormSrgb,
    /// Four 8-bit normalized linear channels, blue first.
    Bgra8Unorm,
    /// Four 8-bit normalized sRGB channels, blue first.
    Bgra8UnormSrgb,
    /// Any other format; sized as four bytes per texel.
    Other,
}

/// Description of a renderer-owned render target.
#[derive(Clone, Copy, Debug, PartialEq, Eq, Structural, Hash)]
pub struct RenderTargetDescriptor {
    /// Width in pixels.
    pub width: u32,
    /// Height in pixels.
    pub height: u32,
    /// Texel format.
    pub format: TargetFormat,
    /// Kind of target.
    pub kind: RenderTargetKind,
    /// Multisample count; render-to-texture uses one sample.
    pub sample_count: u32,
}

impl RenderTargetDescriptor {
    /// A single-sampled colour 2D target.
    pub fn color(width: u32, height: u32, format: TargetFormat) -> (d: RenderTargetDescriptor)
        ensures
            d == (RenderTargetDescriptor { width, height, format, kind: RenderTargetKind::Color2D, sample_count: 1 }),
    {
        RenderTargetDescriptor { width, height, format, kind: RenderTargetKind::Color2D, sample_count: 1 }
    }

    /// A single-sampled HDR colour 2D target.
    pub fn hdr(width: u32, height: u32) -> (d: RenderTargetDescriptor)
        ensures
            d == (RenderTargetDescriptor {
                width,
                height,
                format: TargetFormat::Rgba16Float,
                kind: RenderTargetKind::Hdr2D,
                sample_count: 1,
            }),
    {
        RenderTargetDescriptor {
            width,
            height,
            format: TargetFormat::Rgba16Float,
            kind: RenderTargetKind::Hdr2D,
            sample_count: 1,
        }
    }

    /// A single-sampled depth-only target.
    pub fn depth(width: u32, height: u32) -> (d: RenderTargetDescriptor)
        ensures
            d == (RenderTargetDescriptor {
                width,
                height,
                format: TargetFormat::Depth32Float,
                kind: RenderTargetKind::Depth,
                sample_count: 1,
            }),
    {
        RenderTargetDescriptor {
            width,
            height,
            format: TargetFormat::Depth32Float,
            kind: RenderTargetKind::Depth,
            sample_count: 1,
        }
    }
}

/// What creating a render target under `texture_id` answers before any GPU
/// work: the null id or an empty size is out of range, more than one sample
/// is unsupported.
pub open spec fn render_target_check(texture_id: TextureId, d: RenderTargetDescriptor) -> Result<(), ScenixError> {
    if texture_id.0 == 0 || d.width == 0 || d.height == 0 {
        Err(ScenixError::Validation(ValidationError::OutOfRange))
    } else if d.sample_count != 1 {
        Err(ScenixError::Gpu(GpuError::Unsupported))
    } else {
        Ok(())
    }
}

/// Checks a render target request before the texture is created.
pub fn check_render_target(texture_id: TextureId, descriptor: RenderTargetDescriptor) -> (r: Result<(), ScenixError>)
    ensures
        r == render_target_check(texture_id, descriptor),
{
    if texture_id.is_null() || descriptor.width == 0 || descriptor.height == 0 {
        return Err(ScenixError::Validation(ValidationError::OutOfRange));
    }
    if descriptor.sample_count != 1 {
        return Err(ScenixError::Gpu(GpuError::Unsupported));
    }
    Ok(())
}

/// Checks that pixel `(x, y)` lies inside a `width` by `height` target before
/// it is read back: a pixel outside is out of range.
pub fn check_pixel_read(width: u32, height: u32, x: u32, y: u32) -> (r: Result<(), ScenixError>)
    ensures
        r is Ok <==> (x < width && y < height),
        r is Err ==> r == Err::<(), ScenixError>(ScenixError::Validation(ValidationError::OutOfRange)),
{
    if x >= width || y >= height {
        return Err(ScenixError::Validation(ValidationError::OutOfRange));
    }
    Ok(())
}

/// Whether a target of this kind is also a copy source (every kind but depth).
pub fn target_is_copy_source(kind: RenderTargetKind) -> (b: bool)
    ensures
        b == !(kind is Depth),
{
    match kind {
        RenderTargetKind::Depth => false,
        RenderTargetKind::Color2D | RenderTargetKind::Hdr2D | RenderTargetKind::Cube => true,
    }
}

/// Bytes per texel of a render target format.
pub open spec fn target_texel_bytes(format: TargetFormat) -> int {
    match format {
        TargetFormat::Rgba16Float => 8,
        _ => 4,
    }
}

/// Approximate byte size of a render target, for sizes that fit in `u64`.
pub fn texture_target_byte_len(width: u32, height: u32, format: TargetFormat) -> (r: u64)
    requires
        width * height * target_texel_bytes(format) <= u64::MAX,
    ensures
        r == width * height * target_texel_bytes(format),
{
    let bytes_per_pixel: u64 = match format {
        TargetFormat::Rgba16Float => 8,
        _ => 4,
    };
    assert(width * height <= 0xffff_ffff * 0xffff_ffff) by (nonlinear_arith)
        requires
            width <= 0xffff_ffff,
            height <= 0xffff_ffff,
    ;
    width as u64 * height as u64 * bytes_per_pixel
}

/// The bytes of one row of texels (or of 4x4 blocks) in a texture upload.
pub open spec fn row_bytes_spec(format: TextureFormat, width: u32) -> int {
    match format_bytes_per_pixel(format) {
        Some(bpp) => if width * bpp > u32::MAX {
            u32::MAX as int
        } else {
            width * bpp
        },
        None => (width as int + 3) / 4 * 16,
    }
}

/// An upload row of an uncompressed format holds the bytes of a one-texel
/// high level of the same width (capped at `u32::MAX`); a row of a
/// compressed format holds one row of 4x4 blocks, the bytes of a four-texel
/// high level.
pub proof fn lemma_row_is_level_strip(format: TextureFormat, width: u32)
    ensures
        !format_is_compressed(format) ==> row_bytes_spec(format, width) == if level_byte_len(format, width, 1, 1)
            > u32::MAX {
            u32::MAX as int
        } else {
            level_byte_len(format, width, 1, 1)
        },
        format_is_compressed(format) ==> row_bytes_spec(format, width) == level_byte_len(format, width, 4, 1),
{
    match format_bytes_per_pixel(format) {
        Some(bpp) => {
            assert(width * 1 * 1 * bpp == width * bpp) by (nonlinear_arith);
        },
        None => {
            assert(crate::texture::format::blocks_for(4) == 1);
            assert((width as int + 3) / 4 * 1 * 1 * 16 == (width as int + 3) / 4 * 16) by (nonlinear_arith);
        },
    }
}

/// A render target request passes exactly when its texture id is not null,
/// both sides are non-empty and it uses one sample; an invalid id or an empty
/// side is reported before an unsupported sample count.
pub proof fn lemma_render_target_checks(texture_id: TextureId, d: RenderTargetDescriptor)
    ensures
        render_target_check(texture_id, d) is Ok <==> (texture_id.0 != 0 && d.width > 0 && d.height > 0
            && d.sample_count == 1),
        texture_id.0 == 0 || d.width == 0 || d.height == 0 ==> render_target_check(texture_id, d) == Err::<
            (),
            ScenixError,
        >(ScenixError::Validation(ValidationError::OutOfRange)),
        texture_id.0 != 0 && d.width > 0 && d.height > 0 && d.sample_count != 1 ==> render_target_check(
            texture_id,
            d,
        ) == Err::<(), ScenixError>(ScenixError::Gpu(GpuError::Unsupported)),
{
}

/// Bytes per row of a texture upload: texels times bytes per texel, capped
/// at `u32::MAX`, or whole 4x4 blocks of 16 bytes for compressed formats.
/// A compressed row must fit in `u32`.
pub fn texture_bytes_per_row(format: TextureFormat, width: u32) -> (r: Result<u32, ScenixError>)
    requires
        format_is_compressed(format) ==> (width as int + 3) / 4 * 16 <= u32::MAX,
    ensures
        r == Ok::<u32, ScenixError>(row_bytes_spec(format, width) as u32),
{
    match format.bytes_per_pixel() {
        Some(bytes_per_pixel) => Ok(
            match width.checked_mul(bytes_per_pixel as u32) {
                Some(bytes) => bytes,
                None => u32::MAX,
            },
        ),
        None => {
            let (block_width, _) = match format.block_dimensions() {
                Some(dims) => dims,
                None => return Err(ScenixError::Gpu(GpuError::Unsupported)),
            };
            let bytes_per_block = match format.bytes_per_block() {
                Some(b) => b,
                None => return Err(ScenixError::Gpu(GpuError::Unsupported)),
            };
            let blocks = width / block_width + if width % block_width != 0 { 1 } else { 0 };
            assert(blocks == (width as int + 3) / 4);
            Ok(blocks * bytes_per_block as u32)
        },
    }
}

} // verus!
