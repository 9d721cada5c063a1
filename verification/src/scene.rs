pub mod geometry;
pub mod material;
pub mod node;
pub mod node_tree;
pub mod skin;
pub mod texture;

use vstd::prelude::*;

pub use geometry::{Geometry, Mesh, VertexAttributes};
pub use material::Material;
pub use node::{Node, NodeData};
pub use node_tree::{NodeId, NodeTree};
pub use skin::{Joint, Skin};
pub use texture::{ImageId, MagFilter, MinFilter, TexImage, Texture, WrappingMode};

verus! {

/// A scene of a loaded file
#[derive(Debug, Clone)]
pub struct Scene {
    /// The name of the scene (possibly empty), or None if the 3D file this was loaded from does
    /// not support scene names
    pub name: Option<String>,
    /// The root nodes of the scene
    pub roots: Vec<NodeId>,
}

} // verus!
