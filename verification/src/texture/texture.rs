//! CPU-side 2D, cube and 3D textures with mip chains.

use vstd::prelude::*;
use vstd::arithmetic::power2::{pow2, lemma_pow2_unfold, lemma2_to64};
use core::ops::Range;

use crate::ids::ValidationError;
use crate::texture::format::{
    TextureFormat, expected_len_spec, level_byte_len, mip_dim, format_bytes_per_pixel,
    blocks_for,
};

verus! {

/// Number of binary digits of `n` (`0` for `0`).
pub open spec fn bit_length(n: nat) -> nat
    decreases n,
{
    if n == 0 {
        0
    } else {
        1 + bit_length(n / 2)
    }
}

/// `bit_length(n)` is the number of binary digits of a positive `n`: the
/// power of two just above `n` is `2^bit_length(n)`.
pub proof fn lemma_bit_length_digits(n: nat)
    requires
        n > 0,
    ensures
        bit_length(n) >= 1,
        pow2((bit_length(n) - 1) as nat) <= n < pow2(bit_length(n)),
    decreases n,
{
    if n / 2 > 0 {
        let k = bit_length(n / 2);
        lemma_bit_length_digits(n / 2);
        assert(bit_length(n) == k + 1);
        vstd::arithmetic::power2::lemma_pow2_unfold(k);
        vstd::arithmetic::power2::lemma_pow2_unfold(k + 1);
        assert(pow2(k) == 2 * pow2((k - 1) as nat));
        assert(pow2(k + 1) == 2 * pow2(k));
        assert(n >= 2 * (n / 2) && n <= 2 * (n / 2) + 1);
    } else {
        assert(n == 1);
        assert(bit_length(n) == 1 + bit_length(0));
        vstd::arithmetic::power2::lemma2_to64();
    }
}

/// The larger of two `u32` values.
pub open spec fn max_u32(a: u32, b: u32) -> u32 {
    if a >= b {
        a
    } else {
        b
    }
}

/// A stored mip count of `0` means a single level.
pub open spec fn effective_levels(mip_levels: u32) -> u32 {
    if mip_levels == 0 {
        1
    } else {
        mip_levels
    }
}

/// Byte length of mip level `level` of a `width x height x depth` texture.
pub open spec fn mip_level_bytes(
    format: TextureFormat,
    width: u32,
    height: u32,
    depth: u32,
    level: nat,
) -> int {
    level_byte_len(
        format,
        mip_dim(width, level as u32),
        mip_dim(height, level as u32),
        mip_dim(depth, level as u32),
    )
}

/// Total byte length of the first `n` mip levels.
pub open spec fn chain_bytes(format: TextureFormat, width: u32, height: u32, depth: u32, n: nat) -> int
    decreases n,
{
    if n == 0 {
        0
    } else {
        chain_bytes(format, width, height, depth, (n - 1) as nat) + mip_level_bytes(
            format,
            width,
            height,
            depth,
            (n - 1) as nat,
        )
    }
}

/// Expected total length of a mip chain with `mip_levels` stored levels whose
/// largest base dimension is `max_dim`; `OutOfRange` for a texture with a zero
/// dimension, for more levels than the base size allows, or for a length
/// beyond `usize`.
pub open spec fn chain_len_spec(
    format: TextureFormat,
    width: u32,
    height: u32,
    depth: u32,
    max_dim: u32,
    mip_levels: u32,
) -> Result<usize, ValidationError> {
    let levels = effective_levels(mip_levels);
    if width == 0 || height == 0 || depth == 0 || max_dim == 0 {
        Err(ValidationError::OutOfRange)
    } else if levels > bit_length(max_dim as nat) {
        Err(ValidationError::OutOfRange)
    } else if chain_bytes(format, width, height, depth, levels as nat) <= usize::MAX {
        Ok(chain_bytes(format, width, height, depth, levels as nat) as usize)
    } else {
        Err(ValidationError::OutOfRange)
    }
}

/// Expected total byte length of a 2D mip chain (also used per cube face).
pub open spec fn chain_len_2d(format: TextureFormat, width: u32, height: u32, mip_levels: u32) -> Result<
    usize,
    ValidationError,
> {
    chain_len_spec(format, width, height, 1, max_u32(width, height), mip_levels)
}

/// Expected total byte length of a 3D mip chain.
pub open spec fn chain_len_3d(
    format: TextureFormat,
    width: u32,
    height: u32,
    depth: u32,
    mip_levels: u32,
) -> Result<usize, ValidationError> {
    chain_len_spec(format, width, height, depth, max_u32(max_u32(width, height), depth), mip_levels)
}

/// Whether level `level` of a chain lies in range: the level exists and the
/// whole prefix up to and including it fits in `usize`.
pub open spec fn level_range_ok(
    format: TextureFormat,
    width: u32,
    height: u32,
    depth: u32,
    max_dim: u32,
    mip_levels: u32,
    level: u32,
) -> bool {
    let levels = effective_levels(mip_levels);
    &&& level < levels
    &&& width != 0 && height != 0 && depth != 0
    &&& max_dim != 0
    &&& levels <= bit_length(max_dim as nat)
    &&& chain_bytes(format, width, height, depth, level as nat + 1) <= usize::MAX
}

/// The inputs on which computing the end of a level's byte range overflows:
/// the offset and the level length each fit in `usize` but their sum does not.
pub open spec fn level_range_end_overflows(
    format: TextureFormat,
    width: u32,
    height: u32,
    depth: u32,
    max_dim: u32,
    mip_levels: u32,
    level: u32,
) -> bool {
    let levels = effective_levels(mip_levels);
    &&& level < levels
    &&& max_dim != 0
    &&& levels <= bit_length(max_dim as nat)
    &&& chain_bytes(format, width, height, depth, level as nat) <= usize::MAX
    &&& mip_level_bytes(format, width, height, depth, level as nat) <= usize::MAX
    &&& chain_bytes(format, width, height, depth, level as nat + 1) > usize::MAX
}

/// The byte range that level `level` occupies inside the chain, or `OutOfRange`.
pub open spec fn level_range_spec(
    format: TextureFormat,
    width: u32,
    height: u32,
    depth: u32,
    max_dim: u32,
    mip_levels: u32,
    level: u32,
) -> Result<Range<usize>, ValidationError> {
    if level_range_ok(format, width, height, depth, max_dim, mip_levels, level) {
        Ok(
            Range {
                start: chain_bytes(format, width, height, depth, level as nat) as usize,
                end: chain_bytes(format, width, height, depth, level as nat + 1) as usize,
            },
        )
    } else {
        Err(ValidationError::OutOfRange)
    }
}

/// Concatenation of a sequence of byte sequences.
pub open spec fn concat_bytes(parts: Seq<Seq<u8>>) -> Seq<u8>
    decreases parts.len(),
{
    if parts.len() == 0 {
        Seq::empty()
    } else {
        concat_bytes(parts.drop_last()) + parts.last()
    }
}

/// The byte contents of each mip buffer.
pub open spec fn mip_views(mips: Seq<Vec<u8>>) -> Seq<Seq<u8>> {
    mips.map_values(|m: Vec<u8>| m@)
}

/// Whether `mips` is a valid explicit 2D mip chain: non-empty, no more levels
/// than the base size allows, and every level exactly as long as its extent needs.
pub open spec fn mips_valid_2d(
    format: TextureFormat,
    width: u32,
    height: u32,
    mips: Seq<Seq<u8>>,
) -> bool {
    &&& mips.len() > 0
    &&& width != 0 && height != 0
    &&& max_u32(width, height) != 0
    &&& mips.len() <= bit_length(max_u32(width, height) as nat)
    &&& forall|i: int|
        0 <= i < mips.len() ==> #[trigger] mips[i].len() == mip_level_bytes(
            format,
            width,
            height,
            1,
            i as nat,
        )
}

/// Every level of a mip chain has a non-negative byte length.
proof fn lemma_level_bytes_nonneg(format: TextureFormat, width: u32, height: u32, depth: u32, level: nat)
    ensures
        mip_level_bytes(format, width, height, depth, level) >= 0,
{
    let w = mip_dim(width, level as u32);
    let h = mip_dim(height, level as u32);
    let d = mip_dim(depth, level as u32);
    match format_bytes_per_pixel(format) {
        Some(bpp) => {
            assert(w * h * d * bpp >= 0) by (nonlinear_arith)
                requires
                    w >= 0,
                    h >= 0,
                    d >= 0,
                    bpp >= 0,
            ;
        },
        None => {
            let bx = blocks_for(w);
            let by = blocks_for(h);
            assert(bx * by * d * 16 >= 0) by (nonlinear_arith)
                requires
                    bx >= 0,
                    by >= 0,
                    d >= 0,
            ;
        },
    }
}

/// Prefixes of a mip chain never get shorter as levels are added.
proof fn lemma_chain_monotone(
    format: TextureFormat,
    width: u32,
    height: u32,
    depth: u32,
    m: nat,
    n: nat,
)
    requires
        m <= n,
    ensures
        chain_bytes(format, width, height, depth, m) <= chain_bytes(format, width, height, depth, n),
    decreases n - m,
{
    if m < n {
        lemma_chain_monotone(format, width, height, depth, m, (n - 1) as nat);
        lemma_level_bytes_nonneg(format, width, height, depth, (n - 1) as nat);
    }
}

/// A level's length is bounded by the chain it ends.
proof fn lemma_level_within_chain(format: TextureFormat, width: u32, height: u32, depth: u32, level: nat)
    ensures
        mip_level_bytes(format, width, height, depth, level) <= chain_bytes(
            format,
            width,
            height,
            depth,
            level + 1,
        ),
{
    assert(chain_bytes(format, width, height, depth, level + 1) == chain_bytes(
        format,
        width,
        height,
        depth,
        level,
    ) + mip_level_bytes(format, width, height, depth, level));
    lemma_chain_monotone(format, width, height, depth, 0, level);
}

/// Numbers below `2^k` have at most `k` binary digits.
proof fn lemma_bit_length_bound(n: nat, k: nat)
    requires
        n < pow2(k),
    ensures
        bit_length(n) <= k,
    decreases n,
{
    if n > 0 {
        if k == 0 {
            lemma2_to64();
        } else {
            lemma_pow2_unfold(k);
            lemma_bit_length_bound(n / 2, (k - 1) as nat);
        }
    }
}

/// Size of one dimension at a mip level.
pub fn mip_dimension(value: u32, level: u32) -> (r: u32)
    ensures
        r == mip_dim(value, level),
{
    if level >= 32 {
        1
    } else {
        let shifted = value >> level;
        if shifted == 0 {
            1
        } else {
            shifted
        }
    }
}

/// Number of levels a chain over a base extent of `max_dim` can have.
fn max_mip_levels(max_dim: u32) -> (r: Result<u32, ValidationError>)
    ensures
        match r {
            Ok(n) => max_dim != 0 && n == bit_length(max_dim as nat) && n <= 32,
            Err(e) => max_dim == 0 && e == ValidationError::OutOfRange,
        },
{
    if max_dim == 0 {
        return Err(ValidationError::OutOfRange);
    }
    proof {
        lemma2_to64();
        lemma_bit_length_bound(max_dim as nat, 32);
    }
    let mut v = max_dim;
    let mut count: u32 = 0;
    while v > 0
        invariant
            count + bit_length(v as nat) == bit_length(max_dim as nat),
            bit_length(max_dim as nat) <= 32,
        decreases v,
    {
        v = v / 2;
        count = count + 1;
    }
    Ok(count)
}

/// Sums the lengths of the first `levels` levels of a chain, with overflow checks.
fn chain_len(format: TextureFormat, width: u32, height: u32, depth: u32, levels: u32) -> (r: Result<
    usize,
    ValidationError,
>)
    ensures
        match r {
            Ok(v) => v == chain_bytes(format, width, height, depth, levels as nat),
            Err(e) => e == ValidationError::OutOfRange && chain_bytes(
                format,
                width,
                height,
                depth,
                levels as nat,
            ) > usize::MAX,
        },
{
    let mut total: usize = 0;
    let mut level: u32 = 0;
    while level < levels
        invariant
            level <= levels,
            total == chain_bytes(format, width, height, depth, level as nat),
        decreases levels - level,
    {
        let (w, h) = TextureFormat::mip_dimensions(width, height, level);
        let d = mip_dimension(depth, level);
        match format.expected_3d_len(w, h, d) {
            Ok(len) => {
                assert(len == mip_level_bytes(format, width, height, depth, level as nat));
                match total.checked_add(len) {
                    Some(t) => {
                        total = t;
                    },
                    None => {
                        proof {
                            lemma_chain_monotone(
                                format,
                                width,
                                height,
                                depth,
                                level as nat + 1,
                                levels as nat,
                            );
                        }
                        return Err(ValidationError::OutOfRange);
                    },
                }
            },
            Err(e) => {
                proof {
                    lemma_level_within_chain(format, width, height, depth, level as nat);
                    lemma_chain_monotone(
                        format,
                        width,
                        height,
                        depth,
                        level as nat + 1,
                        levels as nat,
                    );
                }
                return Err(e);
            },
        }
        level = level + 1;
    }
    Ok(total)
}

/// Expected total length of a chain with the given stored level count.
fn chain_len_checked(
    format: TextureFormat,
    width: u32,
    height: u32,
    depth: u32,
    max_dim: u32,
    mip_levels: u32,
) -> (r: Result<usize, ValidationError>)
    ensures
        r == chain_len_spec(format, width, height, depth, max_dim, mip_levels),
{
    if width == 0 || height == 0 || depth == 0 {
        return Err(ValidationError::OutOfRange);
    }
    let levels = if mip_levels == 0 {
        1
    } else {
        mip_levels
    };
    let max_levels = max_mip_levels(max_dim)?;
    if levels > max_levels {
        return Err(ValidationError::OutOfRange);
    }
    chain_len(format, width, height, depth, levels)
}

/// Byte range of level `level` inside a chain.
fn level_range(
    format: TextureFormat,
    width: u32,
    height: u32,
    depth: u32,
    max_dim: u32,
    mip_levels: u32,
    level: u32,
) -> (r: Result<Range<usize>, ValidationError>)
    requires
        !level_range_end_overflows(format, width, height, depth, max_dim, mip_levels, level),
    ensures
        r == level_range_spec(format, width, height, depth, max_dim, mip_levels, level),
{
    let levels = if mip_levels == 0 {
        1
    } else {
        mip_levels
    };
    if level >= levels || width == 0 || height == 0 || depth == 0 {
        return Err(ValidationError::OutOfRange);
    }
    let max_levels = max_mip_levels(max_dim)?;
    if levels > max_levels {
        return Err(ValidationError::OutOfRange);
    }
    let offset = match chain_len(format, width, height, depth, level) {
        Ok(o) => o,
        Err(e) => {
            proof {
                lemma_chain_monotone(format, width, height, depth, level as nat, level as nat + 1);
            }
            return Err(e);
        },
    };
    let (w, h) = TextureFormat::mip_dimensions(width, height, level);
    let d = mip_dimension(depth, level);
    let len = match format.expected_3d_len(w, h, d) {
        Ok(len) => len,
        Err(e) => {
            proof {
                lemma_level_within_chain(format, width, height, depth, level as nat);
            }
            return Err(e);
        },
    };
    assert(chain_bytes(format, width, height, depth, level as nat + 1) == offset + len);
    Ok(offset..offset + len)
}

/// Every level of a 2D chain sees a depth of one.
proof fn lemma_depth_one(level: u32)
    ensures
        mip_dim(1, level) == 1,
{
    if level < 32 {
        if level == 0 {
            assert(1u32 >> 0u32 == 1u32) by (bit_vector);
        } else {
            assert(1u32 >> level == 0u32) by (bit_vector)
                requires
                    0 < level < 32,
            ;
        }
    }
}

/// CPU-side bytes of a 2D texture.
#[derive(Clone, Debug, PartialEq, Eq)]
pub struct Texture2D {
    /// Width in texels.
    pub width: u32,
    /// Height in texels.
    pub height: u32,
    /// Texel format.
    pub format: TextureFormat,
    /// Contiguous bytes of every stored mip level, base level first.
    pub data: Vec<u8>,
    /// Number of stored mip levels; `0` means base data only.
    pub mip_levels: u32,
    /// Optional debug label.
    pub label: Option<String>,
}

/// CPU-side bytes of a cube texture.
#[derive(Clone, Debug, PartialEq, Eq)]
pub struct TextureCube {
    /// Width and height of every face in texels.
    pub size: u32,
    /// Texel format.
    pub format: TextureFormat,
    /// The six faces in +X, -X, +Y, -Y, +Z, -Z order.
    pub faces: [Vec<u8>; 6],
    /// Number of mip levels per face.
    pub mip_levels: u32,
    /// Optional debug label.
    pub label: Option<String>,
}

/// CPU-side bytes of a 3D texture.
#[derive(Clone, Debug, PartialEq, Eq)]
pub struct Texture3D {
    /// Width in texels.
    pub width: u32,
    /// Height in texels.
    pub height: u32,
    /// Depth in texels.
    pub depth: u32,
    /// Texel format.
    pub format: TextureFormat,
    /// Contiguous bytes of every stored mip level, base level first.
    pub data: Vec<u8>,
    /// Number of stored mip levels; `0` means base data only.
    pub mip_levels: u32,
    /// Optional debug label.
    pub label: Option<String>,
}

impl Texture2D {
    /// Whether the stored bytes are exactly the mip chain the header describes.
    pub open spec fn is_valid(&self) -> bool {
        chain_len_2d(self.format, self.width, self.height, self.mip_levels) == Ok::<
            usize,
            ValidationError,
        >(self.data@.len() as usize)
    }

    /// Creates a single-level texture and checks its byte length.
    pub fn new(width: u32, height: u32, format: TextureFormat, data: Vec<u8>) -> (r: Result<
        Texture2D,
        ValidationError,
    >)
        ensures
            match r {
                Ok(t) => t.width == width && t.height == height && t.format == format && t.data
                    == data && t.mip_levels == 1 && t.label is None && t.is_valid(),
                Err(e) => e == ValidationError::OutOfRange && chain_len_2d(format, width, height, 1)
                    != Ok::<usize, ValidationError>(data@.len() as usize),
            },
    {
        Self::with_mip_levels(width, height, format, data, 1)
    }

    /// Creates a texture with an explicit mip count and checks its byte length.
    pub fn with_mip_levels(
        width: u32,
        height: u32,
        format: TextureFormat,
        data: Vec<u8>,
        mip_levels: u32,
    ) -> (r: Result<Texture2D, ValidationError>)
        ensures
            match r {
                Ok(t) => t.width == width && t.height == height && t.format == format && t.data
                    == data && t.mip_levels == mip_levels && t.label is None && t.is_valid(),
                Err(e) => e == ValidationError::OutOfRange && chain_len_2d(
                    format,
                    width,
                    height,
                    mip_levels,
                ) != Ok::<usize, ValidationError>(data@.len() as usize),
            },
    {
        let texture = Texture2D { width, height, format, data, mip_levels, label: None };
        match texture.validate() {
            Ok(()) => Ok(texture),
            Err(e) => Err(e),
        }
    }

    /// Creates a texture from explicit mip levels, concatenating their bytes.
    pub fn from_mips(width: u32, height: u32, format: TextureFormat, mips: Vec<Vec<u8>>) -> (r:
        Result<Texture2D, ValidationError>)
        ensures
            match r {
                Ok(t) => {
                    &&& mips_valid_2d(format, width, height, mip_views(mips@))
                    &&& t.width == width && t.height == height && t.format == format
                    &&& t.mip_levels == mips@.len()
                    &&& t.data@ == concat_bytes(mip_views(mips@))
                    &&& t.label is None
                },
                Err(e) => e == ValidationError::OutOfRange && (!mips_valid_2d(
                    format,
                    width,
                    height,
                    mip_views(mips@),
                ) || concat_bytes(mip_views(mips@)).len() > usize::MAX),
            },
    {
        if mips.len() == 0 || width == 0 || height == 0 {
            return Err(ValidationError::OutOfRange);
        }
        let max_dim = if width >= height {
            width
        } else {
            height
        };
        let max_levels = max_mip_levels(max_dim)?;
        if mips.len() > max_levels as usize {
            return Err(ValidationError::OutOfRange);
        }
        let ghost views = mip_views(mips@);
        let mut level: usize = 0;
        while level < mips.len()
            invariant
                level <= mips@.len(),
                mips@.len() <= 32,
                views == mip_views(mips@),
                forall|i: int|
                    0 <= i < level ==> #[trigger] views[i].len() == mip_level_bytes(
                        format,
                        width,
                        height,
                        1,
                        i as nat,
                    ),
            decreases mips@.len() - level,
        {
            let (w, h) = TextureFormat::mip_dimensions(width, height, level as u32);
            proof {
                lemma_depth_one(level as u32);
            }
            match format.expected_2d_len(w, h) {
                Ok(len) => {
                    assert(len == mip_level_bytes(format, width, height, 1, level as nat));
                    assert(views[level as int].len() == mips@[level as int].len());
                    if mips[level].len() != len {
                        return Err(ValidationError::OutOfRange);
                    }
                },
                Err(e) => {
                    assert(views[level as int].len() == mips@[level as int].len());
                    return Err(e);
                },
            }
            level = level + 1;
        }
        let mut data: Vec<u8> = Vec::new();
        let mut i: usize = 0;
        while i < mips.len()
            invariant
                i <= mips@.len(),
                views == mip_views(mips@),
                data@ == concat_bytes(views.take(i as int)),
            decreases mips@.len() - i,
        {
            let part = &mips[i];
            if data.len().checked_add(part.len()).is_none() {
                proof {
                    lemma_concat_prefix_len(views, i as int + 1);
                    assert(views.take(i as int + 1).drop_last() =~= views.take(i as int));
                    assert(views.take(i as int + 1).last() == part@);
                }
                return Err(ValidationError::OutOfRange);
            }
            let ghost before = data@;
            data.extend_from_slice(part.as_slice());
            proof {
                assert(data@ =~= before + part@);
                assert(views.take(i as int + 1).drop_last() =~= views.take(i as int));
            }
            i = i + 1;
        }
        assert(views.take(mips@.len() as int) =~= views);
        Ok(
            Texture2D {
                width,
                height,
                format,
                data,
                mip_levels: mips.len() as u32,
                label: None,
            },
        )
    }

    /// Returns this texture with a debug label.
    pub fn labeled(self, label: &str) -> (t: Texture2D)
        ensures
            t == (Texture2D { label: Some(t.label->0), ..self }),
            t.label->0@ == label@,
    {
        let mut t = self;
        t.label = Some(label.to_owned());
        t
    }

    /// Returns the expected byte length of the base level.
    pub fn base_level_len(&self) -> (r: Result<usize, ValidationError>)
        ensures
            r == expected_len_spec(self.format, self.width, self.height, 1),
    {
        self.format.expected_2d_len(self.width, self.height)
    }

    /// Returns the byte range of mip level `level` inside `data`.
    pub fn mip_level_range(&self, level: u32) -> (r: Result<Range<usize>, ValidationError>)
        requires
            !level_range_end_overflows(
                self.format,
                self.width,
                self.height,
                1,
                max_u32(self.width, self.height),
                self.mip_levels,
                level,
            ),
        ensures
            r == level_range_spec(
                self.format,
                self.width,
                self.height,
                1,
                max_u32(self.width, self.height),
                self.mip_levels,
                level,
            ),
    {
        let max_dim = if self.width >= self.height {
            self.width
        } else {
            self.height
        };
        level_range(self.format, self.width, self.height, 1, max_dim, self.mip_levels, level)
    }

    /// Checks the dimensions and the byte length.
    pub fn validate(&self) -> (r: Result<(), ValidationError>)
        ensures
            r is Ok <==> self.is_valid(),
            r matches Err(e) ==> e == ValidationError::OutOfRange,
    {
        let max_dim = if self.width >= self.height {
            self.width
        } else {
            self.height
        };
        let expected = chain_len_checked(
            self.format,
            self.width,
            self.height,
            1,
            max_dim,
            self.mip_levels,
        )?;
        if self.data.len() == expected {
            Ok(())
        } else {
            Err(ValidationError::OutOfRange)
        }
    }
}

/// A prefix of the parts never concatenates to more bytes than all of them.
proof fn lemma_concat_prefix_len(parts: Seq<Seq<u8>>, n: int)
    requires
        0 <= n <= parts.len(),
    ensures
        concat_bytes(parts.take(n)).len() <= concat_bytes(parts).len(),
    decreases parts.len(),
{
    if n == parts.len() {
        assert(parts.take(n) =~= parts);
    } else {
        lemma_concat_prefix_len(parts.drop_last(), n);
        assert(parts.drop_last().take(n) =~= parts.take(n));
    }
}

impl TextureCube {
    /// Whether every face holds exactly the mip chain the header describes.
    pub open spec fn is_valid(&self) -> bool {
        forall|i: int|
            0 <= i < 6 ==> chain_len_2d(self.format, self.size, self.size, self.mip_levels)
                == Ok::<usize, ValidationError>(#[trigger] self.faces@[i]@.len() as usize)
    }

    /// Creates a cube texture from six faces and checks every face.
    pub fn new(size: u32, format: TextureFormat, faces: [Vec<u8>; 6]) -> (r: Result<
        TextureCube,
        ValidationError,
    >)
        ensures
            match r {
                Ok(t) => t.size == size && t.format == format && t.faces == faces && t.mip_levels
                    == 1 && t.label is None && t.is_valid(),
                Err(e) => e == ValidationError::OutOfRange && !(TextureCube {
                    size,
                    format,
                    faces,
                    mip_levels: 1,
                    label: None,
                }).is_valid(),
            },
    {
        let texture = TextureCube { size, format, faces, mip_levels: 1, label: None };
        match texture.validate() {
            Ok(()) => Ok(texture),
            Err(e) => Err(e),
        }
    }

    /// Returns this cube texture with a debug label.
    pub fn labeled(self, label: &str) -> (t: TextureCube)
        ensures
            t == (TextureCube { label: Some(t.label->0), ..self }),
            t.label->0@ == label@,
    {
        let mut t = self;
        t.label = Some(label.to_owned());
        t
    }

    /// Checks the face size and every face's byte length.
    pub fn validate(&self) -> (r: Result<(), ValidationError>)
        ensures
            r is Ok <==> self.is_valid(),
            r matches Err(e) ==> e == ValidationError::OutOfRange,
    {
        assert(max_u32(self.size, self.size) == self.size);
        let expected = match chain_len_checked(
            self.format,
            self.size,
            self.size,
            1,
            self.size,
            self.mip_levels,
        ) {
            Ok(v) => v,
            Err(e) => {
                assert(chain_len_2d(self.format, self.size, self.size, self.mip_levels) != Ok::<
                    usize,
                    ValidationError,
                >(self.faces@[0]@.len() as usize));
                return Err(e);
            },
        };
        let mut i: usize = 0;
        while i < 6
            invariant
                i <= 6,
                chain_len_2d(self.format, self.size, self.size, self.mip_levels) == Ok::<
                    usize,
                    ValidationError,
                >(expected),
                forall|j: int| 0 <= j < i ==> #[trigger] self.faces@[j]@.len() == expected,
            decreases 6 - i,
        {
            if self.faces[i].len() != expected {
                return Err(ValidationError::OutOfRange);
            }
            i = i + 1;
        }
        Ok(())
    }

    /// Returns the byte range of mip level `level` inside each face.
    pub fn mip_level_range(&self, level: u32) -> (r: Result<Range<usize>, ValidationError>)
        requires
            !level_range_end_overflows(
                self.format,
                self.size,
                self.size,
                1,
                self.size,
                self.mip_levels,
                level,
            ),
        ensures
            r == level_range_spec(
                self.format,
                self.size,
                self.size,
                1,
                self.size,
                self.mip_levels,
                level,
            ),
    {
        level_range(self.format, self.size, self.size, 1, self.size, self.mip_levels, level)
    }
}

impl Texture3D {
    /// Whether the stored bytes are exactly the mip chain the header describes.
    pub open spec fn is_valid(&self) -> bool {
        chain_len_3d(self.format, self.width, self.height, self.depth, self.mip_levels) == Ok::<
            usize,
            ValidationError,
        >(self.data@.len() as usize)
    }

    /// Creates a single-level 3D texture and checks its byte length.
    pub fn new(width: u32, height: u32, depth: u32, format: TextureFormat, data: Vec<u8>) -> (r:
        Result<Texture3D, ValidationError>)
        ensures
            match r {
                Ok(t) => t.width == width && t.height == height && t.depth == depth && t.format
                    == format && t.data == data && t.mip_levels == 1 && t.label is None
                    && t.is_valid(),
                Err(e) => e == ValidationError::OutOfRange && chain_len_3d(
                    format,
                    width,
                    height,
                    depth,
                    1,
                ) != Ok::<usize, ValidationError>(data@.len() as usize),
            },
    {
        Self::with_mip_levels(width, height, depth, format, data, 1)
    }

    /// Creates a 3D texture with an explicit mip count and checks its byte length.
    pub fn with_mip_levels(
        width: u32,
        height: u32,
        depth: u32,
        format: TextureFormat,
        data: Vec<u8>,
        mip_levels: u32,
    ) -> (r: Result<Texture3D, ValidationError>)
        ensures
            match r {
                Ok(t) => t.width == width && t.height == height && t.depth == depth && t.format
                    == format && t.data == data && t.mip_levels == mip_levels && t.label is None
                    && t.is_valid(),
                Err(e) => e == ValidationError::OutOfRange && chain_len_3d(
                    format,
                    width,
                    height,
                    depth,
                    mip_levels,
                ) != Ok::<usize, ValidationError>(data@.len() as usize),
            },
    {
        let texture = Texture3D { width, height, depth, format, data, mip_levels, label: None };
        match texture.validate() {
            Ok(()) => Ok(texture),
            Err(e) => Err(e),
        }
    }

    /// Returns this texture with a debug label.
    pub fn labeled(self, label: &str) -> (t: Texture3D)
        ensures
            t == (Texture3D { label: Some(t.label->0), ..self }),
            t.label->0@ == label@,
    {
        let mut t = self;
        t.label = Some(label.to_owned());
        t
    }

    /// Checks the dimensions and the byte length.
    pub fn validate(&self) -> (r: Result<(), ValidationError>)
        ensures
            r is Ok <==> self.is_valid(),
            r matches Err(e) ==> e == ValidationError::OutOfRange,
    {
        let wh = if self.width >= self.height {
            self.width
        } else {
            self.height
        };
        let max_dim = if wh >= self.depth {
            wh
        } else {
            self.depth
        };
        assert(max_dim == max_u32(max_u32(self.width, self.height), self.depth));
        let expected = chain_len_checked(
            self.format,
            self.width,
            self.height,
            self.depth,
            max_dim,
            self.mip_levels,
        )?;
        if self.data.len() == expected {
            Ok(())
        } else {
            Err(ValidationError::OutOfRange)
        }
    }

    /// Returns the byte range of mip level `level` inside `data`.
    pub fn mip_level_range(&self, level: u32) -> (r: Result<Range<usize>, ValidationError>)
        requires
            !level_range_end_overflows(
                self.format,
                self.width,
                self.height,
                self.depth,
                max_u32(max_u32(self.width, self.height), self.depth),
                self.mip_levels,
                level,
            ),
        ensures
            r == level_range_spec(
                self.format,
                self.width,
                self.height,
                self.depth,
                max_u32(max_u32(self.width, self.height), self.depth),
                self.mip_levels,
                level,
            ),
    {
        let wh = if self.width >= self.height {
            self.width
        } else {
            self.height
        };
        let max_dim = if wh >= self.depth {
            wh
        } else {
            self.depth
        };
        level_range(
            self.format,
            self.width,
            self.height,
            self.depth,
            max_dim,
            self.mip_levels,
            level,
        )
    }
}

} // verus!
