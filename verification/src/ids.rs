//! Shared identifiers and the validation error type.

use vstd::prelude::*;

verus! {

/// Error returned when an argument or the current state is rejected.
#[derive(Clone, Copy, Debug, PartialEq, Eq, Structural)]
pub enum ValidationError {
    /// An identifier does not name a live object.
    InvalidId,
    /// A size, index or count is outside the accepted range.
    OutOfRange,
    /// The request conflicts with the current state.
    InvalidState,
}

/// Failure of a GPU-side request.
#[derive(Clone, Copy, Debug, PartialEq, Eq, Structural)]
pub enum GpuError {
    /// The format or feature is not supported.
    Unsupported,
}

/// Error of a renderer operation: a rejected argument or a GPU limitation.
#[derive(Clone, Copy, Debug, PartialEq, Eq, Structural)]
pub enum ScenixError {
    /// An argument was rejected.
    Validation(ValidationError),
    /// The GPU cannot do what was asked.
    Gpu(GpuError),
}

/// Identifier of a node inside one scene graph. `0` is the null id.
#[derive(Clone, Copy, Debug, PartialEq, Eq, Structural, Hash, PartialOrd, Ord)]
pub struct NodeId(pub u64);

impl NodeId {
    /// Creates an identifier from its raw value.
    pub fn new(raw: u64) -> (id: NodeId)
        ensures
            id.0 == raw,
    {
        NodeId(raw)
    }

    /// Returns the raw value.
    pub fn get(self) -> (raw: u64)
        ensures
            raw == self.0,
    {
        self.0
    }

    /// Returns whether this is the null id.
    pub fn is_null(self) -> (b: bool)
        ensures
            b == (self.0 == 0),
    {
        self.0 == 0
    }
}

/// Identifier of a mesh resource. `0` is the null id.
#[derive(Clone, Copy, Debug, PartialEq, Eq, Structural, Hash, PartialOrd, Ord)]
pub struct MeshId(pub u64);

impl MeshId {
    /// Creates an identifier from its raw value.
    pub fn new(raw: u64) -> (id: MeshId)
        ensures
            id.0 == raw,
    {
        MeshId(raw)
    }

    /// Returns the raw value.
    pub fn get(self) -> (raw: u64)
        ensures
            raw == self.0,
    {
        self.0
    }

    /// Returns whether this is the null id.
    pub fn is_null(self) -> (b: bool)
        ensures
            b == (self.0 == 0),
    {
        self.0 == 0
    }
}

/// Identifier of a material resource. `0` is the null id.
#[derive(Clone, Copy, Debug, PartialEq, Eq, Structural, Hash, PartialOrd, Ord)]
pub struct MaterialId(pub u64);

impl MaterialId {
    /// Creates an identifier from its raw value.
    pub fn new(raw: u64) -> (id: MaterialId)
        ensures
            id.0 == raw,
    {
        MaterialId(raw)
    }

    /// Returns the raw value.
    pub fn get(self) -> (raw: u64)
        ensures
            raw == self.0,
    {
        self.0
    }

    /// Returns whether this is the null id.
    pub fn is_null(self) -> (b: bool)
        ensures
            b == (self.0 == 0),
    {
        self.0 == 0
    }
}

/// Identifier of a texture resource. `0` is the null id.
#[derive(Clone, Copy, Debug, PartialEq, Eq, Structural, Hash, PartialOrd, Ord)]
pub struct TextureId(pub u64);

impl TextureId {
    /// Creates an identifier from its raw value.
    pub fn new(raw: u64) -> (id: TextureId)
        ensures
            id.0 == raw,
    {
        TextureId(raw)
    }

    /// Returns the raw value.
    pub fn get(self) -> (raw: u64)
        ensures
            raw == self.0,
    {
        self.0
    }

    /// Returns whether this is the null id.
    pub fn is_null(self) -> (b: bool)
        ensures
            b == (self.0 == 0),
    {
        self.0 == 0
    }
}

/// Identifier of a light resource. `0` is the null id.
#[derive(Clone, Copy, Debug, PartialEq, Eq, Structural, Hash, PartialOrd, Ord)]
pub struct LightId(pub u64);

impl LightId {
    /// Creates an identifier from its raw value.
    pub fn new(raw: u64) -> (id: LightId)
        ensures
            id.0 == raw,
    {
        LightId(raw)
    }

    /// Returns the raw value.
    pub fn get(self) -> (raw: u64)
        ensures
            raw == self.0,
    {
        self.0
    }

    /// Returns whether this is the null id.
    pub fn is_null(self) -> (b: bool)
        ensures
            b == (self.0 == 0),
    {
        self.0 == 0
    }
}

/// Identifier of a camera resource. `0` is the null id.
#[derive(Clone, Copy, Debug, PartialEq, Eq, Structural, Hash, PartialOrd, Ord)]
pub struct CameraId(pub u64);

impl CameraId {
    /// Creates an identifier from its raw value.
    pub fn new(raw: u64) -> (id: CameraId)
        ensures
            id.0 == raw,
    {
        CameraId(raw)
    }

    /// Returns the raw value.
    pub fn get(self) -> (raw: u64)
        ensures
            raw == self.0,
    {
        self.0
    }

    /// Returns whether this is the null id.
    pub fn is_null(self) -> (b: bool)
        ensures
            b == (self.0 == 0),
    {
        self.0 == 0
    }
}

} // verus!
