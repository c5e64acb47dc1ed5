//! Browser integration helpers that need no browser: canvas sizing,
//! WebGL capability labels and DOM input mapping.

pub mod canvas;
pub mod input;
pub mod backend;
pub mod viewer;
