//! Editor interaction outcomes shared by picking and drag tools.

pub mod candidates;

use vstd::prelude::*;

verus! {

/// Whether box selection needs full containment.
#[derive(Clone, Copy, Debug, PartialEq, Eq, Structural, Hash)]
pub enum SelectionContainment {
    /// Any overlap of the projected bounds is accepted (the default).
    Intersects,
    /// The projected bounds must lie fully inside.
    Contains,
}

impl Default for SelectionContainment {
    fn default() -> (c: SelectionContainment)
        ensures
            c == SelectionContainment::Intersects,
    {
        SelectionContainment::Intersects
    }
}

/// Failure of an interaction operation.
#[derive(Clone, Copy, Debug, PartialEq, Eq, Structural, Hash)]
pub enum InteractionError {
    /// The node does not exist.
    InvalidNode,
    /// The node is locked or filtered out by policy.
    Locked,
    /// The ray is parallel to the interaction plane.
    ParallelRay,
    /// No operation is active.
    NotActive,
}

} // verus!
