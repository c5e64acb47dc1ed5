//! Renderer-side bookkeeping that needs no GPU: target and pass kinds,
//! frame counters, uniform and texture sizing, and index packing.

pub mod targets;
pub mod config;
pub mod stats;
pub mod uniforms;
pub mod indices;
pub mod texture_store;
pub mod skinning;
pub mod gpu_scene;
pub mod sort;
