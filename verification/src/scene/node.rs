//! User-editable scene node data.

use vstd::prelude::*;

use crate::ids::{CameraId, LightId, MaterialId, MeshId, TextureId};

verus! {

/// How a sprite faces the camera.
#[derive(Clone, Copy, Debug, PartialEq, Eq, Structural, Hash)]
pub enum BillboardMode {
    /// The sprite keeps its node rotation (the default).
    Fixed,
    /// The sprite faces the active camera.
    FaceCamera,
    /// The sprite turns about the world Y axis towards the active camera.
    AxisAlignedY,
}

impl Default for BillboardMode {
    fn default() -> (m: BillboardMode)
        ensures
            m == BillboardMode::Fixed,
    {
        BillboardMode::Fixed
    }
}

/// Sprite attachment: the texture it shows and how it faces the camera.
#[derive(Clone, Copy, Debug, PartialEq, Eq, Structural)]
pub struct Sprite {
    /// Texture shown by the sprite.
    pub texture_id: TextureId,
    /// Billboard behaviour.
    pub billboard: BillboardMode,
}

impl Sprite {
    /// Creates a sprite without billboard rotation.
    pub fn new(texture_id: TextureId) -> (s: Sprite)
        ensures
            s == (Sprite { texture_id, billboard: BillboardMode::Fixed }),
    {
        Sprite { texture_id, billboard: BillboardMode::Fixed }
    }

    /// Returns the sprite with the given billboard mode.
    pub fn billboard(self, billboard: BillboardMode) -> (s: Sprite)
        ensures
            s == (Sprite { billboard, ..self }),
    {
        Sprite { billboard, ..self }
    }
}

/// Render or logic payload attached to a scene node.
#[derive(Clone, Copy, Debug, PartialEq, Eq, Structural)]
pub enum NodeKind {
    /// No payload (the default).
    Empty,
    /// Logical group.
    Group,
    /// Renderable mesh.
    Mesh {
        /// Mesh resource.
        mesh_id: MeshId,
        /// Material resource.
        material_id: MaterialId,
    },
    /// Light attachment.
    Light {
        /// Light resource.
        light_id: LightId,
    },
    /// Camera attachment.
    Camera {
        /// Camera resource.
        camera_id: CameraId,
    },
    /// Sprite attachment.
    Sprite(Sprite),
}

impl Default for NodeKind {
    fn default() -> (k: NodeKind)
        ensures
            k == NodeKind::Empty,
    {
        NodeKind::Empty
    }
}

/// Public, user-editable data of a node.
#[derive(Debug, PartialEq, Eq)]
pub struct SceneNode {
    /// Human-readable name.
    pub name: String,
    /// Whether the node and its payload count as visible.
    pub visible: bool,
    /// Camera culling layer bits.
    pub layer: u32,
    /// Node payload.
    pub kind: NodeKind,
}

impl SceneNode {
    /// Creates a visible empty node on every layer.
    pub fn new(name: &str) -> (n: SceneNode)
        ensures
            n.name@ == name@,
            n.visible,
            n.layer == 0xffff_ffffu32,
            n.kind == NodeKind::Empty,
    {
        SceneNode { name: name.to_owned(), visible: true, layer: 0xffff_ffff, kind: NodeKind::Empty }
    }

    /// Creates an empty node.
    pub fn empty(name: &str) -> (n: SceneNode)
        ensures
            n.name@ == name@,
            n.visible,
            n.layer == 0xffff_ffffu32,
            n.kind == NodeKind::Empty,
    {
        Self::new(name)
    }

    /// Creates a logical group node.
    pub fn group(name: &str) -> (n: SceneNode)
        ensures
            n.name@ == name@,
            n.visible,
            n.layer == 0xffff_ffffu32,
            n.kind == NodeKind::Group,
    {
        Self::new(name).kind(NodeKind::Group)
    }

    /// Creates a mesh node.
    pub fn mesh(name: &str, mesh_id: MeshId, material_id: MaterialId) -> (n: SceneNode)
        ensures
            n.name@ == name@,
            n.visible,
            n.layer == 0xffff_ffffu32,
            n.kind == (NodeKind::Mesh { mesh_id, material_id }),
    {
        Self::new(name).kind(NodeKind::Mesh { mesh_id, material_id })
    }

    /// Creates a light node.
    pub fn light(name: &str, light_id: LightId) -> (n: SceneNode)
        ensures
            n.name@ == name@,
            n.visible,
            n.layer == 0xffff_ffffu32,
            n.kind == (NodeKind::Light { light_id }),
    {
        Self::new(name).kind(NodeKind::Light { light_id })
    }

    /// Creates a camera node.
    pub fn camera(name: &str, camera_id: CameraId) -> (n: SceneNode)
        ensures
            n.name@ == name@,
            n.visible,
            n.layer == 0xffff_ffffu32,
            n.kind == (NodeKind::Camera { camera_id }),
    {
        Self::new(name).kind(NodeKind::Camera { camera_id })
    }

    /// Creates a sprite node.
    pub fn sprite(name: &str, sprite: Sprite) -> (n: SceneNode)
        ensures
            n.name@ == name@,
            n.visible,
            n.layer == 0xffff_ffffu32,
            n.kind == NodeKind::Sprite(sprite),
    {
        Self::new(name).kind(NodeKind::Sprite(sprite))
    }

    /// Returns the node with the given visibility.
    pub fn visible(self, visible: bool) -> (n: SceneNode)
        ensures
            n == (SceneNode { visible, ..self }),
    {
        SceneNode { visible, ..self }
    }

    /// Returns the node with the given layer bits.
    pub fn layer(self, layer: u32) -> (n: SceneNode)
        ensures
            n == (SceneNode { layer, ..self }),
    {
        SceneNode { layer, ..self }
    }

    /// Returns the node with the given payload.
    pub fn kind(self, kind: NodeKind) -> (n: SceneNode)
        ensures
            n == (SceneNode { kind, ..self }),
    {
        SceneNode { kind, ..self }
    }
}

impl Clone for SceneNode {
    fn clone(&self) -> (n: SceneNode)
        ensures
            n == *self,
    {
        SceneNode {
            name: self.name.clone(),
            visible: self.visible,
            layer: self.layer,
            kind: self.kind,
        }
    }
}

impl Default for SceneNode {
    fn default() -> (n: SceneNode)
        ensures
            n.name@ == Seq::<char>::empty(),
            n.visible,
            n.layer == 0xffff_ffffu32,
            n.kind == NodeKind::Empty,
    {
        SceneNode { name: String::new(), visible: true, layer: 0xffff_ffff, kind: NodeKind::Empty }
    }
}

} // verus!
