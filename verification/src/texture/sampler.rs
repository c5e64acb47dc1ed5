//! Sampler configuration.

use vstd::prelude::*;

verus! {

/// Texture filtering mode.
#[derive(Clone, Copy, Debug, PartialEq, Eq, Structural, Hash)]
pub enum FilterMode {
    /// Nearest-neighbour sampling.
    Nearest,
    /// Linear interpolation (the default).
    Linear,
}

/// Texture coordinate addressing mode.
#[derive(Clone, Copy, Debug, PartialEq, Eq, Structural, Hash)]
pub enum AddressMode {
    /// Repeat outside `[0, 1]`.
    Repeat,
    /// Mirror every other period.
    MirrorRepeat,
    /// Clamp to the edge texel (the default).
    ClampToEdge,
}

/// Optional depth comparison used for shadow sampling.
#[derive(Clone, Copy, Debug, PartialEq, Eq, Structural, Hash)]
pub enum CompareFunction {
    /// Passes when the sample is less than the reference.
    Less,
    /// Passes when the sample is less than or equal to the reference.
    LessEqual,
    /// Passes when the sample is greater than the reference.
    Greater,
    /// Passes when the sample is greater than or equal to the reference.
    GreaterEqual,
    /// Passes when the sample equals the reference.
    Equal,
    /// Passes when the sample differs from the reference.
    NotEqual,
    /// Always passes.
    Always,
    /// Never passes.
    Never,
}

/// CPU-side sampler configuration.
#[derive(Clone, Copy, Debug, PartialEq, Eq, Structural, Hash)]
pub struct Sampler {
    /// Magnification filter.
    pub mag_filter: FilterMode,
    /// Minification filter.
    pub min_filter: FilterMode,
    /// Mipmap filter.
    pub mip_filter: FilterMode,
    /// Addressing of the U coordinate.
    pub address_u: AddressMode,
    /// Addressing of the V coordinate.
    pub address_v: AddressMode,
    /// Addressing of the W coordinate.
    pub address_w: AddressMode,
    /// Anisotropy level, clamped to `1..=16`.
    pub anisotropy: u8,
    /// Optional depth comparison.
    pub compare: Option<CompareFunction>,
}

/// The default linear, clamp-to-edge sampler.
pub open spec fn default_sampler() -> Sampler {
    Sampler {
        mag_filter: FilterMode::Linear,
        min_filter: FilterMode::Linear,
        mip_filter: FilterMode::Linear,
        address_u: AddressMode::ClampToEdge,
        address_v: AddressMode::ClampToEdge,
        address_w: AddressMode::ClampToEdge,
        anisotropy: 1,
        compare: None,
    }
}

/// `value` clamped to the accepted anisotropy range `1..=16`.
pub open spec fn clamp_anisotropy(value: u8) -> u8 {
    if value < 1 {
        1
    } else if value > 16 {
        16
    } else {
        value
    }
}

impl Default for FilterMode {
    fn default() -> (m: FilterMode)
        ensures
            m == FilterMode::Linear,
    {
        FilterMode::Linear
    }
}

impl Default for AddressMode {
    fn default() -> (m: AddressMode)
        ensures
            m == AddressMode::ClampToEdge,
    {
        AddressMode::ClampToEdge
    }
}

impl Sampler {
    /// Creates the default linear clamp sampler.
    pub fn new() -> (s: Sampler)
        ensures
            s == default_sampler(),
    {
        Sampler {
            mag_filter: FilterMode::Linear,
            min_filter: FilterMode::Linear,
            mip_filter: FilterMode::Linear,
            address_u: AddressMode::ClampToEdge,
            address_v: AddressMode::ClampToEdge,
            address_w: AddressMode::ClampToEdge,
            anisotropy: 1,
            compare: None,
        }
    }

    /// Returns this sampler with the given filter modes.
    pub fn filters(
        self,
        mag_filter: FilterMode,
        min_filter: FilterMode,
        mip_filter: FilterMode,
    ) -> (s: Sampler)
        ensures
            s == (Sampler { mag_filter, min_filter, mip_filter, ..self }),
    {
        let mut s = self;
        s.mag_filter = mag_filter;
        s.min_filter = min_filter;
        s.mip_filter = mip_filter;
        s
    }

    /// Returns this sampler with the given addressing modes.
    pub fn address_modes(
        self,
        address_u: AddressMode,
        address_v: AddressMode,
        address_w: AddressMode,
    ) -> (s: Sampler)
        ensures
            s == (Sampler { address_u, address_v, address_w, ..self }),
    {
        let mut s = self;
        s.address_u = address_u;
        s.address_v = address_v;
        s.address_w = address_w;
        s
    }

    /// Returns this sampler with anisotropy clamped to `1..=16`.
    pub fn anisotropy(self, anisotropy: u8) -> (s: Sampler)
        ensures
            s == (Sampler { anisotropy: clamp_anisotropy(anisotropy), ..self }),
            1 <= s.anisotropy <= 16,
    {
        let mut s = self;
        s.anisotropy = if anisotropy < 1 {
            1
        } else if anisotropy > 16 {
            16
        } else {
            anisotropy
        };
        s
    }

    /// Returns this sampler with the given comparison function.
    pub fn compare(self, compare: Option<CompareFunction>) -> (s: Sampler)
        ensures
            s == (Sampler { compare, ..self }),
    {
        let mut s = self;
        s.compare = compare;
        s
    }
}

impl Default for Sampler {
    fn default() -> (s: Sampler)
        ensures
            s == default_sampler(),
    {
        Sampler::new()
    }
}

} // verus!
