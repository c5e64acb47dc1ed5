//! Counters reported by the renderer.

use vstd::prelude::*;

use crate::render::targets::RenderTargetMode;

verus! {

/// CPU-side counters reported after rendering a frame.
#[derive(Clone, Copy, Debug, PartialEq, Eq, Structural)]
pub struct FrameStats {
    /// Monotonically increasing frame index.
    pub frame_index: u64,
    /// Mesh nodes met during traversal.
    pub scene_meshes: u32,
    /// Mesh nodes submitted after culling.
    pub visible_meshes: u32,
    /// Mesh nodes rejected by frustum culling.
    pub culled_meshes: u32,
    /// Opaque draw submissions.
    pub opaque_draws: u32,
    /// Transparent draw submissions.
    pub transparent_draws: u32,
    /// Registered lights available to the frame.
    pub lights: u32,
    /// Render target backend used by the frame.
    pub target_mode: Option<RenderTargetMode>,
}

impl Default for FrameStats {
    fn default() -> (s: FrameStats)
        ensures
            s == (FrameStats {
                frame_index: 0,
                scene_meshes: 0,
                visible_meshes: 0,
                culled_meshes: 0,
                opaque_draws: 0,
                transparent_draws: 0,
                lights: 0,
                target_mode: None,
            }),
    {
        FrameStats {
            frame_index: 0,
            scene_meshes: 0,
            visible_meshes: 0,
            culled_meshes: 0,
            opaque_draws: 0,
            transparent_draws: 0,
            lights: 0,
            target_mode: None,
        }
    }
}

/// Renderer-level resource and frame diagnostics.
#[derive(Clone, Copy, Debug, PartialEq, Eq, Structural)]
pub struct RendererDiagnostics {
    /// Frame index the next render call uses.
    pub frame_index: u64,
    /// Registered meshes.
    pub meshes: u32,
    /// Registered materials.
    pub materials: u32,
    /// Registered textures.
    pub textures: u32,
    /// Registered lights.
    pub lights: u32,
    /// Registered render targets.
    pub render_targets: u32,
    /// Approximate GPU texture bytes owned by renderer uploads.
    pub texture_memory_bytes: u64,
    /// Approximate GPU vertex and index buffer bytes.
    pub geometry_memory_bytes: u64,
    /// Approximate uniform buffer bytes allocated for draw resources.
    pub uniform_memory_bytes: u64,
    /// Cached render pipelines.
    pub pipeline_cache_entries: u32,
    /// Shadow atlas layers available to the renderer.
    pub shadow_slots: u32,
}

impl Default for RendererDiagnostics {
    fn default() -> (d: RendererDiagnostics)
        ensures
            d == (RendererDiagnostics {
                frame_index: 0,
                meshes: 0,
                materials: 0,
                textures: 0,
                lights: 0,
                render_targets: 0,
                texture_memory_bytes: 0,
                geometry_memory_bytes: 0,
                uniform_memory_bytes: 0,
                pipeline_cache_entries: 0,
                shadow_slots: 0,
            }),
    {
        RendererDiagnostics {
            frame_index: 0,
            meshes: 0,
            materials: 0,
            textures: 0,
            lights: 0,
            render_targets: 0,
            texture_memory_bytes: 0,
            geometry_memory_bytes: 0,
            uniform_memory_bytes: 0,
            pipeline_cache_entries: 0,
            shadow_slots: 0,
        }
    }
}

/// Memory snapshot of renderer-owned resources.
#[derive(Clone, Copy, Debug, PartialEq, Eq, Structural)]
pub struct ResourceStats {
    /// Approximate mesh buffer bytes.
    pub geometry_bytes: u64,
    /// Approximate texture and render target bytes.
    pub texture_bytes: u64,
    /// Approximate uniform buffer bytes.
    pub uniform_bytes: u64,
}

impl Default for ResourceStats {
    fn default() -> (s: ResourceStats)
        ensures
            s == (ResourceStats { geometry_bytes: 0, texture_bytes: 0, uniform_bytes: 0 }),
    {
        ResourceStats { geometry_bytes: 0, texture_bytes: 0, uniform_bytes: 0 }
    }
}

/// Pipeline cache counters.
#[derive(Clone, Copy, Debug, PartialEq, Eq, Structural)]
pub struct PipelineCacheStats {
    /// Cached render pipelines.
    pub entries: u32,
}

impl Default for PipelineCacheStats {
    fn default() -> (s: PipelineCacheStats)
        ensures
            s.entries == 0,
    {
        PipelineCacheStats { entries: 0 }
    }
}

} // verus!
