//! Canvas sizing, WebGL capability levels and browser backend choices.

use vstd::prelude::*;

verus! {

/// A canvas dimension a renderer accepts: zero becomes one.
pub open spec fn clamp_dim(v: u32) -> u32 {
    if v == 0 {
        1
    } else {
        v
    }
}

/// A clamped dimension is never zero and keeps every non-zero value.
pub proof fn lemma_clamp_dim(v: u32)
    ensures
        clamp_dim(v) >= 1,
        v != 0 ==> clamp_dim(v) == v,
        v == 0 ==> clamp_dim(v) == 1,
{
}

/// Clamps a canvas or render target size to dimensions the renderer accepts.
pub fn clamp_canvas_size(width: u32, height: u32) -> (r: (u32, u32))
    ensures
        r == (clamp_dim(width), clamp_dim(height)),
{
    (if width == 0 {
        1
    } else {
        width
    }, if height == 0 {
        1
    } else {
        height
    })
}

/// WebGL capability level used by the browser fallback renderer.
#[derive(Clone, Copy, Debug, PartialEq, Eq, Structural, Hash)]
pub enum WebGlCapabilityLevel {
    /// Reduced WebGL 1 fallback path.
    WebGl1,
    /// Full WebGL 2 fallback path.
    WebGl2,
}

impl WebGlCapabilityLevel {
    /// Returns the compact label used in diagnostics.
    pub fn label(self) -> (s: &'static str)
        ensures
            s@ == match self {
                WebGlCapabilityLevel::WebGl1 => "webgl1"@,
                WebGlCapabilityLevel::WebGl2 => "webgl2"@,
            },
    {
        match self {
            WebGlCapabilityLevel::WebGl1 => "webgl1",
            WebGlCapabilityLevel::WebGl2 => "webgl2",
        }
    }

    /// Returns how much of the renderer this fallback matches.
    pub fn parity_label(self) -> (s: &'static str)
        ensures
            s@ == match self {
                WebGlCapabilityLevel::WebGl1 => "reduced-fallback"@,
                WebGlCapabilityLevel::WebGl2 => "full-fallback"@,
            },
    {
        match self {
            WebGlCapabilityLevel::WebGl1 => "reduced-fallback",
            WebGlCapabilityLevel::WebGl2 => "full-fallback",
        }
    }
}

/// Preferred browser rendering backend.
#[derive(Clone, Copy, Debug, PartialEq, Eq, Structural, Hash)]
pub enum BrowserBackendPreference {
    /// Pick the best available backend.
    Auto,
    /// Force WebGPU.
    WebGpu,
    /// Force WebGL.
    WebGl,
}

/// Active browser rendering backend.
#[derive(Clone, Copy, Debug, PartialEq, Eq, Structural, Hash)]
pub enum BrowserBackendKind {
    /// WebGPU backend.
    WebGpu,
    /// WebGL backend.
    WebGl,
    /// Application-level Canvas2D fallback.
    CanvasFallback,
}

} // verus!
