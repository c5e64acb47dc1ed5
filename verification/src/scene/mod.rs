//! Scene hierarchy, editor metadata and selection state.

pub mod selection;
pub mod editor;
pub mod node;
pub mod slots;
pub mod graph;
pub mod inspector;
