//! Editor-only layer masks, per-node metadata and transform tool settings.

use vstd::prelude::*;

pub use crate::scene::selection::{SelectionChange, SelectionMode, SelectionState};

verus! {

/// Bit mask used to filter scene interaction layers.
#[derive(Clone, Copy, Debug, PartialEq, Eq, Structural, Hash, Default)]
pub struct LayerMask(u32);

impl LayerMask {
    /// The mask with no layers.
    pub fn none() -> (m: LayerMask)
        ensures
            m.spec_bits() == 0,
    {
        LayerMask(0)
    }

    /// The mask with every layer bit.
    pub fn all() -> (m: LayerMask)
        ensures
            m.spec_bits() == all_layers(),
    {
        LayerMask(0xffff_ffff)
    }

    /// The raw mask bits.
    pub closed spec fn spec_bits(self) -> u32 {
        self.0
    }

    /// Creates a mask from raw bits.
    pub fn from_bits(bits: u32) -> (m: LayerMask)
        ensures
            m.spec_bits() == bits,
    {
        LayerMask(bits)
    }

    /// Returns the raw mask bits.
    pub fn bits(self) -> (b: u32)
        ensures
            b == self.spec_bits(),
    {
        self.0
    }

    /// Returns whether the masks share a bit.
    pub fn intersects(self, other: LayerMask) -> (b: bool)
        ensures
            b == (self.spec_bits() & other.spec_bits() != 0),
    {
        self.0 & other.0 != 0
    }

    /// Returns whether this mask shares a bit with a node's layer bits.
    pub fn matches_node(self, node_layers: u32) -> (b: bool)
        ensures
            b == (self.spec_bits() & node_layers != 0),
    {
        self.0 & node_layers != 0
    }

    /// Adds the bits of `other`.
    pub fn insert(&mut self, other: LayerMask)
        ensures
            final(self).spec_bits() == old(self).spec_bits() | other.spec_bits(),
    {
        self.0 = self.0 | other.0;
    }

    /// Removes the bits of `other`.
    pub fn remove(&mut self, other: LayerMask)
        ensures
            final(self).spec_bits() == old(self).spec_bits() & !other.spec_bits(),
    {
        self.0 = self.0 & !other.0;
    }
}

/// Two masks with the same bits are the same mask.
pub proof fn lemma_mask_bits_eq(a: LayerMask, b: LayerMask)
    requires
        a.spec_bits() == b.spec_bits(),
    ensures
        a == b,
{
}

/// After inserting `other`, the mask meets `other` whenever `other` is not
/// empty, and inserting `other` again changes nothing.
pub proof fn lemma_insert_twice(m: LayerMask, other: LayerMask, once: LayerMask, twice: LayerMask)
    requires
        once.spec_bits() == m.spec_bits() | other.spec_bits(),
        twice.spec_bits() == once.spec_bits() | other.spec_bits(),
    ensures
        other.spec_bits() != 0 ==> once.spec_bits() & other.spec_bits() != 0,
        twice == once,
{
    let (a, b) = (m.spec_bits(), other.spec_bits());
    assert(b != 0 ==> (a | b) & b != 0) by (bit_vector);
    assert((a | b) | b == a | b) by (bit_vector);
}

/// Removing `other` leaves a mask that does not meet it, and changes nothing
/// when the mask did not meet it before.
pub proof fn lemma_remove_disjoint(m: LayerMask, other: LayerMask, after: LayerMask)
    requires
        after.spec_bits() == m.spec_bits() & !other.spec_bits(),
    ensures
        after.spec_bits() & other.spec_bits() == 0,
        m.spec_bits() & other.spec_bits() == 0 ==> after == m,
{
    let (a, b) = (m.spec_bits(), other.spec_bits());
    assert((a & !b) & b == 0) by (bit_vector);
    assert(a & b == 0 ==> a & !b == a) by (bit_vector);
}

/// Inserting layers the mask did not have and removing them again gives the
/// mask back.
pub proof fn lemma_insert_then_remove(m: LayerMask, other: LayerMask, inserted: LayerMask, removed: LayerMask)
    requires
        m.spec_bits() & other.spec_bits() == 0,
        inserted.spec_bits() == m.spec_bits() | other.spec_bits(),
        removed.spec_bits() == inserted.spec_bits() & !other.spec_bits(),
    ensures
        removed == m,
{
    let (a, b) = (m.spec_bits(), other.spec_bits());
    assert(a & b == 0 ==> (a | b) & !b == a) by (bit_vector);
}

/// The mask with every bit set.
pub open spec fn all_layers() -> u32 {
    0xffff_ffff
}

/// Layer filters applied by editor interactions.
#[derive(Clone, Copy, Debug, PartialEq, Eq, Structural)]
pub struct LayerPolicy {
    /// Layers that can be selected.
    pub selectable: LayerMask,
    /// Layers that can be dragged.
    pub draggable: LayerMask,
    /// Layers that transform tools may change.
    pub transformable: LayerMask,
}

impl Default for LayerPolicy {
    fn default() -> (p: LayerPolicy)
        ensures
            p.selectable.spec_bits() == all_layers(),
            p.draggable.spec_bits() == all_layers(),
            p.transformable.spec_bits() == all_layers(),
    {
        LayerPolicy {
            selectable: LayerMask::all(),
            draggable: LayerMask::all(),
            transformable: LayerMask::all(),
        }
    }
}

/// Sparse editor-only metadata attached to a scene node.
#[derive(Debug, PartialEq, Eq)]
pub struct NodeEditorMetadata {
    /// The node may be selected.
    pub selectable: bool,
    /// Drag tools may move the node.
    pub draggable: bool,
    /// Transform tools may change the node.
    pub transformable: bool,
    /// The node is protected from editor changes.
    pub locked: bool,
    /// The node shows up in inspector snapshots.
    pub visible_in_inspector: bool,
    /// Optional editor label overriding the scene name.
    pub label: Option<String>,
    /// Application-defined editor tags.
    pub tags: Vec<String>,
}

impl NodeEditorMetadata {
    /// Whether this is the default metadata: every permission granted, not
    /// locked, visible, no label and no tags.
    pub open spec fn is_default_spec(&self) -> bool {
        &&& self.selectable && self.draggable && self.transformable
        &&& !self.locked
        &&& self.visible_in_inspector
        &&& self.label is None
        &&& self.tags@.len() == 0
    }

    /// Whether both hold the same permissions, label and tags.
    pub open spec fn same_as(&self, other: NodeEditorMetadata) -> bool {
        &&& self.selectable == other.selectable
        &&& self.draggable == other.draggable
        &&& self.transformable == other.transformable
        &&& self.locked == other.locked
        &&& self.visible_in_inspector == other.visible_in_inspector
        &&& self.label == other.label
        &&& self.tags@ == other.tags@
    }

    /// Returns whether this equals the default metadata.
    pub fn is_default(&self) -> (b: bool)
        ensures
            b == self.is_default_spec(),
    {
        self.selectable && self.draggable && self.transformable && !self.locked
            && self.visible_in_inspector && self.label.is_none() && self.tags.len() == 0
    }
}

impl Clone for NodeEditorMetadata {
    fn clone(&self) -> (m: NodeEditorMetadata)
        ensures
            m.same_as(*self),
    {
        let mut tags: Vec<String> = Vec::new();
        let mut i: usize = 0;
        while i < self.tags.len()
            invariant
                i <= self.tags@.len(),
                tags@ == self.tags@.take(i as int),
            decreases self.tags@.len() - i,
        {
            tags.push(self.tags[i].clone());
            i = i + 1;
            proof {
                assert(tags@ =~= self.tags@.take(i as int));
            }
        }
        proof {
            assert(self.tags@.take(self.tags@.len() as int) =~= self.tags@);
        }
        let label = match &self.label {
            Some(l) => Some(l.clone()),
            None => None,
        };
        NodeEditorMetadata {
            selectable: self.selectable,
            draggable: self.draggable,
            transformable: self.transformable,
            locked: self.locked,
            visible_in_inspector: self.visible_in_inspector,
            label,
            tags,
        }
    }
}

impl Default for NodeEditorMetadata {
    fn default() -> (m: NodeEditorMetadata)
        ensures
            m.is_default_spec(),
    {
        NodeEditorMetadata {
            selectable: true,
            draggable: true,
            transformable: true,
            locked: false,
            visible_in_inspector: true,
            label: None,
            tags: Vec::new(),
        }
    }
}

/// Active transform tool.
#[derive(Clone, Copy, Debug, PartialEq, Eq, Structural, Hash)]
pub enum TransformMode {
    /// Move nodes (the default).
    Translate,
    /// Rotate nodes.
    Rotate,
    /// Scale nodes.
    Scale,
}

impl Default for TransformMode {
    fn default() -> (m: TransformMode)
        ensures
            m == TransformMode::Translate,
    {
        TransformMode::Translate
    }
}

/// Coordinate frame used by transform tools.
#[derive(Clone, Copy, Debug, PartialEq, Eq, Structural, Hash)]
pub enum TransformSpace {
    /// World axes (the default).
    World,
    /// Node-local axes.
    Local,
}

impl Default for TransformSpace {
    fn default() -> (s: TransformSpace)
        ensures
            s == TransformSpace::World,
    {
        TransformSpace::World
    }
}

/// Axis or plane constraint of a transform operation.
#[derive(Clone, Copy, Debug, PartialEq, Eq, Structural, Hash)]
pub enum TransformConstraint {
    /// No constraint (the default).
    Free,
    /// X axis.
    X,
    /// Y axis.
    Y,
    /// Z axis.
    Z,
    /// XY plane.
    XY,
    /// XZ plane.
    XZ,
    /// YZ plane.
    YZ,
}

impl Default for TransformConstraint {
    fn default() -> (c: TransformConstraint)
        ensures
            c == TransformConstraint::Free,
    {
        TransformConstraint::Free
    }
}

} // verus!
