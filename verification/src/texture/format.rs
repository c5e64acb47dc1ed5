//! Texture format metadata and per-level byte sizes.

use vstd::prelude::*;
use vstd::arithmetic::power2::pow2;

use crate::ids::ValidationError;

verus! {

/// CPU-side texture format metadata.
#[derive(Clone, Copy, Debug, PartialEq, Eq, Structural, Hash)]
pub enum TextureFormat {
    /// Four 8-bit normalized linear RGBA channels.
    Rgba8Unorm,
    /// Four 8-bit normalized sRGB RGBA channels.
    Rgba8UnormSrgb,
    /// Four 16-bit float RGBA channels.
    Rgba16Float,
    /// 32-bit float depth.
    Depth32Float,
    /// BC7 compressed RGBA, 4x4 blocks of 16 bytes.
    Bc7RgbaUnorm,
    /// ASTC 4x4 compressed RGBA, 16 bytes per block.
    Astc4x4RgbaUnorm,
    /// ETC2 RGBA8 compressed data, 4x4 blocks of 16 bytes.
    Etc2Rgba8Unorm,
}

/// Whether `format` stores block-compressed data.
pub open spec fn format_is_compressed(format: TextureFormat) -> bool {
    ||| format is Bc7RgbaUnorm
    ||| format is Astc4x4RgbaUnorm
    ||| format is Etc2Rgba8Unorm
}

/// Bytes per texel of an uncompressed format.
pub open spec fn format_bytes_per_pixel(format: TextureFormat) -> Option<usize> {
    match format {
        TextureFormat::Rgba8Unorm | TextureFormat::Rgba8UnormSrgb | TextureFormat::Depth32Float => Some(4usize),
        TextureFormat::Rgba16Float => Some(8usize),
        _ => None,
    }
}

/// Channels per texel and bytes per channel of an uncompressed format, as
/// its name spells them: RGBA8 is four one-byte channels whether linear or
/// sRGB, RGBA16F four two-byte channels, Depth32F one four-byte channel.
pub open spec fn channel_layout(format: TextureFormat) -> Option<(nat, nat)> {
    match format {
        TextureFormat::Rgba8Unorm => Some((4, 1)),
        TextureFormat::Rgba8UnormSrgb => Some((4, 1)),
        TextureFormat::Rgba16Float => Some((4, 2)),
        TextureFormat::Depth32Float => Some((1, 4)),
        _ => None,
    }
}

/// A texel of an uncompressed format takes its channel count times its
/// channel width in bytes, and a `w x h` level takes `w * h` texels of that
/// size; a compressed level takes 16 bytes per started 4x4 block. Only the
/// block-compressed formats have no texel size.
pub proof fn lemma_texel_sizes(format: TextureFormat, w: u32, h: u32)
    requires
        w > 0,
        h > 0,
    ensures
        format_is_compressed(format) <==> channel_layout(format) is None,
        channel_layout(format) matches Some((n, b)) ==> format_bytes_per_pixel(format) == Some((n * b) as usize),
        channel_layout(format) matches Some((n, b)) ==> level_byte_len(format, w, h, 1) == w * h * n * b,
        format_is_compressed(format) ==> level_byte_len(format, w, h, 1) == ((w + 3) / 4) * ((h + 3) / 4) * 16,
{
    match format {
        TextureFormat::Rgba8Unorm | TextureFormat::Rgba8UnormSrgb => {
            assert(w * h * 1 * 4 == w * h * 4 * 1) by (nonlinear_arith);
        },
        TextureFormat::Rgba16Float => {
            assert(w * h * 1 * 8 == w * h * 4 * 2) by (nonlinear_arith);
        },
        TextureFormat::Depth32Float => {
            assert(w * h * 1 * 4 == w * h * 1 * 4) by (nonlinear_arith);
        },
        _ => {
            assert(blocks_for(w) * blocks_for(h) * 1 * 16 == ((w + 3) / 4) * ((h + 3) / 4) * 16) by (nonlinear_arith)
                requires
                    blocks_for(w) == (w + 3) / 4,
                    blocks_for(h) == (h + 3) / 4,
            ;
        },
    }
}

/// `value >> shift`, or `0` once the shift reaches the bit width.
pub open spec fn shr_clamped_spec(value: u32, shift: u32) -> u32 {
    if shift >= 32 {
        0
    } else {
        value >> shift
    }
}

/// Size of one dimension at a mip level: halved per level, never below one.
pub open spec fn mip_dim(value: u32, level: u32) -> u32 {
    let shifted = shr_clamped_spec(value, level);
    if shifted == 0 {
        1
    } else {
        shifted
    }
}

/// A dimension at mip level `level` is the base dimension divided by
/// `2^level`, rounded down, and never below one.
pub proof fn lemma_mip_dim_halves(value: u32, level: u32)
    ensures
        level < 32 ==> mip_dim(value, level) == (if value as nat / pow2(level as nat) == 0 {
            1
        } else {
            value as nat / pow2(level as nat)
        }),
        level >= 32 ==> mip_dim(value, level) == 1,
{
    if level < 32 {
        vstd::bits::lemma_u32_shr_is_div(value, level);
    }
}

/// Number of 4-texel blocks needed to cover `texels` texels.
pub open spec fn blocks_for(texels: u32) -> int {
    (texels as int + 3) / 4
}

/// Exact byte length of one `width x height x depth` level of `format`.
pub open spec fn level_byte_len(format: TextureFormat, width: u32, height: u32, depth: u32) -> int {
    match format_bytes_per_pixel(format) {
        Some(bpp) => width * height * depth * bpp,
        None => blocks_for(width) * blocks_for(height) * depth * 16,
    }
}

/// Result of `expected_3d_len`: the level byte length, or `OutOfRange` for an
/// empty extent or a length that does not fit in `usize`.
pub open spec fn expected_len_spec(
    format: TextureFormat,
    width: u32,
    height: u32,
    depth: u32,
) -> Result<usize, ValidationError> {
    if width == 0 || height == 0 || depth == 0 {
        Err(ValidationError::OutOfRange)
    } else if level_byte_len(format, width, height, depth) <= usize::MAX {
        Ok(level_byte_len(format, width, height, depth) as usize)
    } else {
        Err(ValidationError::OutOfRange)
    }
}

/// A product of positive factors never shrinks when another positive factor joins.
proof fn lemma_product_grows(a: int, b: int)
    requires
        a >= 0,
        b >= 1,
    ensures
        a * b >= a,
{
    assert(a * b >= a * 1) by (nonlinear_arith)
        requires
            a >= 0,
            b >= 1,
    ;
}

/// Computes `width * height * depth` with overflow checks.
fn checked_area(width: u32, height: u32, depth: u32) -> (r: Result<usize, ValidationError>)
    requires
        depth >= 1,
    ensures
        match r {
            Ok(v) => v == width * height * depth,
            Err(e) => e == ValidationError::OutOfRange && width * height * depth > usize::MAX,
        },
{
    let w = width as usize;
    let h = height as usize;
    let d = depth as usize;
    match w.checked_mul(h) {
        Some(wh) => match wh.checked_mul(d) {
            Some(v) => Ok(v),
            None => Err(ValidationError::OutOfRange),
        },
        None => {
            proof {
                lemma_product_grows(width * height, depth as int);
            }
            Err(ValidationError::OutOfRange)
        },
    }
}

impl TextureFormat {
    /// Returns whether this is a block-compressed format.
    pub fn is_compressed(self) -> (b: bool)
        ensures
            b == format_is_compressed(self),
    {
        match self {
            TextureFormat::Bc7RgbaUnorm | TextureFormat::Astc4x4RgbaUnorm
            | TextureFormat::Etc2Rgba8Unorm => true,
            _ => false,
        }
    }

    /// Returns the bytes per pixel of an uncompressed format.
    pub fn bytes_per_pixel(self) -> (r: Option<usize>)
        ensures
            r == format_bytes_per_pixel(self),
            r is None <==> format_is_compressed(self),
    {
        match self {
            TextureFormat::Rgba8Unorm | TextureFormat::Rgba8UnormSrgb
            | TextureFormat::Depth32Float => Some(4),
            TextureFormat::Rgba16Float => Some(8),
            _ => None,
        }
    }

    /// Returns the `(width, height)` of a compressed block.
    pub fn block_dimensions(self) -> (r: Option<(u32, u32)>)
        ensures
            r == (if format_is_compressed(self) {
                Some((4u32, 4u32))
            } else {
                None
            }),
    {
        if self.is_compressed() {
            Some((4, 4))
        } else {
            None
        }
    }

    /// Returns the number of bytes in one compressed block.
    pub fn bytes_per_block(self) -> (r: Option<usize>)
        ensures
            r == (if format_is_compressed(self) {
                Some(16usize)
            } else {
                None
            }),
    {
        if self.is_compressed() {
            Some(16)
        } else {
            None
        }
    }

    /// Returns the dimensions of mip level `level`.
    pub fn mip_dimensions(width: u32, height: u32, level: u32) -> (r: (u32, u32))
        ensures
            r == (mip_dim(width, level), mip_dim(height, level)),
    {
        let w = shr_clamped(width, level);
        let h = shr_clamped(height, level);
        (if w == 0 {
            1
        } else {
            w
        }, if h == 0 {
            1
        } else {
            h
        })
    }

    /// Returns the expected byte length of one 2D level.
    pub fn expected_2d_len(self, width: u32, height: u32) -> (r: Result<usize, ValidationError>)
        ensures
            r == expected_len_spec(self, width, height, 1),
    {
        self.expected_3d_len(width, height, 1)
    }

    /// Returns the expected byte length of one 3D level.
    pub fn expected_3d_len(self, width: u32, height: u32, depth: u32) -> (r: Result<
        usize,
        ValidationError,
    >)
        ensures
            r == expected_len_spec(self, width, height, depth),
    {
        if width == 0 || height == 0 || depth == 0 {
            return Err(ValidationError::OutOfRange);
        }
        match self.bytes_per_pixel() {
            Some(bpp) => {
                let area = checked_area(width, height, depth);
                match area {
                    Ok(a) => match a.checked_mul(bpp) {
                        Some(v) => Ok(v),
                        None => Err(ValidationError::OutOfRange),
                    },
                    Err(e) => {
                        proof {
                            lemma_product_grows(width * height * depth, bpp as int);
                        }
                        Err(e)
                    },
                }
            },
            None => {
                let blocks_x = width / 4 + if width % 4 != 0 {
                    1u32
                } else {
                    0u32
                };
                let blocks_y = height / 4 + if height % 4 != 0 {
                    1u32
                } else {
                    0u32
                };
                assert(blocks_x == blocks_for(width));
                assert(blocks_y == blocks_for(height));
                let area = checked_area(blocks_x, blocks_y, depth);
                match area {
                    Ok(a) => match a.checked_mul(16) {
                        Some(v) => Ok(v),
                        None => Err(ValidationError::OutOfRange),
                    },
                    Err(e) => {
                        proof {
                            lemma_product_grows(blocks_x * blocks_y * depth, 16);
                        }
                        Err(e)
                    },
                }
            },
        }
    }
}

/// Right shift that yields `0` once `shift` reaches the bit width.
pub fn shr_clamped(value: u32, shift: u32) -> (r: u32)
    ensures
        r == shr_clamped_spec(value, shift),
{
    if shift >= 32 {
        0
    } else {
        value >> shift
    }
}

} // verus!
