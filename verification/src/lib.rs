//! CPU-side scene-graph, texture and editor logic of scenekit, with
//! machine-checked contracts.

pub mod ids;
pub mod texture;
pub mod scene;
pub mod render;
pub mod web;
pub mod raycast;
