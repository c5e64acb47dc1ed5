//! Renderer configuration: target size, multisampling, presentation.

use vstd::prelude::*;

use crate::ids::ValidationError;
use crate::render::targets::TargetFormat;

verus! {

/// How frames are presented to a surface.
#[derive(Clone, Copy, Debug, PartialEq, Eq, Structural, Hash)]
pub enum PresentMode {
    /// Vertical sync where available, else the fastest mode.
    AutoVsync,
    /// No vertical sync where available.
    AutoNoVsync,
    /// First-in first-out, synchronised to the display.
    Fifo,
    /// First-in first-out, presenting late frames at once.
    FifoRelaxed,
    /// Present at once, tearing allowed.
    Immediate,
    /// Replace the queued frame, synchronised to the display.
    Mailbox,
}

/// Set of graphics backends a renderer may use.
#[derive(Clone, Copy, Debug, PartialEq, Eq, Structural, Hash)]
pub struct Backends {
    /// Bit 0 Vulkan, 1 Metal, 2 DirectX 12, 3 OpenGL, 4 browser WebGPU.
    pub bits: u32,
}

/// Bits of every backend: Vulkan, Metal, DirectX 12, OpenGL and browser WebGPU.
pub open spec fn all_backend_bits() -> u32 {
    0b1_1111
}

impl Backends {
    /// A set from its bits (bit 0 Vulkan, 1 Metal, 2 DirectX 12, 3 OpenGL,
    /// 4 browser WebGPU); other bits are dropped.
    pub fn from_bits(bits: u32) -> (b: Backends)
        ensures
            b.bits == bits & all_backend_bits(),
    {
        Backends { bits: bits & 0b1_1111 }
    }

    /// Every backend.
    pub fn all() -> (b: Backends)
        ensures
            b.bits == all_backend_bits(),
    {
        Backends { bits: 0b1_1111 }
    }

    /// Returns the bits.
    pub fn bits(self) -> (r: u32)
        ensures
            r == self.bits,
    {
        self.bits
    }

    /// Whether no backend is allowed.
    pub fn is_empty(self) -> (b: bool)
        ensures
            b == (self.bits == 0),
    {
        self.bits == 0
    }
}

/// Renderer initialisation and resize configuration.
#[derive(Clone, Copy, Debug, PartialEq, Eq, Structural)]
pub struct RendererConfig {
    /// Render target width in pixels.
    pub width: u32,
    /// Render target height in pixels.
    pub height: u32,
    /// Multisample count; `1` and `4` are supported.
    pub sample_count: u32,
    /// Whether presentation waits for the display refresh.
    pub vsync: bool,
    /// Whether an HDR intermediate colour target is used.
    pub hdr: bool,
    /// Surface presentation mode.
    pub present_mode: PresentMode,
    /// Requested graphics backends.
    pub backends: Backends,
}

/// The default configuration: 1280x720, one sample, vsync, no HDR, FIFO
/// presentation, every backend.
pub open spec fn default_config() -> RendererConfig {
    RendererConfig {
        width: 1280,
        height: 720,
        sample_count: 1,
        vsync: true,
        hdr: false,
        present_mode: PresentMode::Fifo,
        backends: Backends { bits: all_backend_bits() },
    }
}

/// What `validate` answers: an empty size or a sample count other than 1 or
/// 4 is out of range; an empty backend set is an invalid state.
pub open spec fn config_check(c: RendererConfig) -> Result<(), ValidationError> {
    if c.width == 0 || c.height == 0 {
        Err(ValidationError::OutOfRange)
    } else if c.sample_count != 1 && c.sample_count != 4 {
        Err(ValidationError::OutOfRange)
    } else if c.backends.bits == 0 {
        Err(ValidationError::InvalidState)
    } else {
        Ok(())
    }
}

/// A configuration is accepted exactly when both sides are non-empty, it
/// uses one or four samples and it allows some backend; size problems are
/// reported before sample problems, and both before an empty backend set.
pub proof fn lemma_config_acceptance(c: RendererConfig)
    ensures
        config_check(c) is Ok <==> (c.width > 0 && c.height > 0 && (c.sample_count == 1 || c.sample_count == 4)
            && c.backends.bits != 0),
        c.width == 0 || c.height == 0 ==> config_check(c) == Err::<(), ValidationError>(ValidationError::OutOfRange),
        c.width > 0 && c.height > 0 && c.sample_count != 1 && c.sample_count != 4 ==> config_check(c) == Err::<
            (),
            ValidationError,
        >(ValidationError::OutOfRange),
        c.width > 0 && c.height > 0 && (c.sample_count == 1 || c.sample_count == 4) && c.backends.bits == 0
            ==> config_check(c) == Err::<(), ValidationError>(ValidationError::InvalidState),
{
}

impl RendererConfig {
    /// The default configuration with the given size.
    pub fn new(width: u32, height: u32) -> (c: RendererConfig)
        ensures
            c == (RendererConfig { width, height, ..default_config() }),
    {
        RendererConfig { width, height, ..RendererConfig::default() }
    }

    /// Checks the target size, the sample count and the backend set.
    pub fn validate(&self) -> (r: Result<(), ValidationError>)
        ensures
            r == config_check(*self),
    {
        if self.width == 0 || self.height == 0 {
            return Err(ValidationError::OutOfRange);
        }
        if self.sample_count != 1 && self.sample_count != 4 {
            return Err(ValidationError::OutOfRange);
        }
        if self.backends.is_empty() {
            return Err(ValidationError::InvalidState);
        }
        Ok(())
    }

    /// The colour format this configuration prefers.
    pub fn preferred_color_format(&self) -> (f: TargetFormat)
        ensures
            f == if self.hdr {
                TargetFormat::Rgba16Float
            } else {
                TargetFormat::Bgra8UnormSrgb
            },
    {
        if self.hdr {
            TargetFormat::Rgba16Float
        } else {
            TargetFormat::Bgra8UnormSrgb
        }
    }

    /// Returns a copy with another size.
    pub fn resized(self, width: u32, height: u32) -> (c: RendererConfig)
        ensures
            c == (RendererConfig { width, height, ..self }),
    {
        RendererConfig { width, height, ..self }
    }

    /// Returns a copy with vsync set, presenting FIFO with vsync and
    /// immediately without.
    pub fn vsync(self, vsync: bool) -> (c: RendererConfig)
        ensures
            c == (RendererConfig {
                vsync,
                present_mode: if vsync {
                    PresentMode::Fifo
                } else {
                    PresentMode::Immediate
                },
                ..self
            }),
    {
        RendererConfig {
            vsync,
            present_mode: if vsync {
                PresentMode::Fifo
            } else {
                PresentMode::Immediate
            },
            ..self
        }
    }

    /// Returns a copy with the HDR intermediate target switched on or off.
    pub fn hdr(self, hdr: bool) -> (c: RendererConfig)
        ensures
            c == (RendererConfig { hdr, ..self }),
    {
        RendererConfig { hdr, ..self }
    }
}

impl Default for RendererConfig {
    fn default() -> (c: RendererConfig)
        ensures
            c == default_config(),
    {
        RendererConfig {
            width: 1280,
            height: 720,
            sample_count: 1,
            vsync: true,
            hdr: false,
            present_mode: PresentMode::Fifo,
            backends: Backends::all(),
        }
    }
}

} // verus!
