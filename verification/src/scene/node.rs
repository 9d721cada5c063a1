//! Nodes of a scene and the data they hold

use vstd::prelude::*;

use std::sync::Arc;

use super::node_tree::NodeId;

verus! {

/// What a node holds: a mesh `M` (with the skin `S` that deforms it, if any), a camera `C`, or
/// a light `L`
#[derive(Debug)]
pub enum NodeData<M, S, C, L> {
    Mesh(Arc<M>, Option<Arc<S>>),
    Camera(Arc<C>),
    Light(Arc<L>),
}

/// The node references a mesh and possibly a skin, and nothing else; or a camera alone; or a
/// light alone; or nothing. Each reference is the index of an item among those loaded.
pub open spec fn node_parts_valid(
    mesh: Option<usize>,
    skin: Option<usize>,
    camera: Option<usize>,
    light: Option<usize>,
    meshes: nat,
    skins: nat,
    cameras: nat,
    lights: nat,
) -> bool {
    match (mesh, skin, camera, light) {
        (None, None, None, None) => true,
        (Some(m), s, None, None) => m < meshes && (s matches Some(s) ==> s < skins),
        (None, None, Some(c), None) => c < cameras,
        (None, None, None, Some(l)) => l < lights,
        _ => false,
    }
}

impl<M, S, C, L> NodeData<M, S, C, L> {
    /// The data of a node that references the given items (by index among those loaded): a
    /// mesh with its skin, a camera, a light, or no data at all.
    ///
    /// A node that has a skin but no mesh, or more than one of a mesh, a camera or a light, is
    /// not supported.
    pub fn from_indices(
        mesh: Option<usize>,
        skin: Option<usize>,
        camera: Option<usize>,
        light: Option<usize>,
        meshes: &[Arc<M>],
        skins: &[Arc<S>],
        cameras: &[Arc<C>],
        lights: &[Arc<L>],
    ) -> (data: Option<Self>)
        requires
            node_parts_valid(
                mesh,
                skin,
                camera,
                light,
                meshes@.len(),
                skins@.len(),
                cameras@.len(),
                lights@.len(),
            ),
        ensures
            data == match (mesh, skin, camera, light) {
                (Some(m), s, None, None) => Some(
                    NodeData::Mesh(
                        meshes@[m as int],
                        match s {
                            Some(s) => Some(skins@[s as int]),
                            None => None,
                        },
                    ),
                ),
                (None, None, Some(c), None) => Some(NodeData::Camera(cameras@[c as int])),
                (None, None, None, Some(l)) => Some(NodeData::Light(lights@[l as int])),
                _ => None::<NodeData<M, S, C, L>>,
            },
    {
        match (mesh, skin, camera, light) {
            (Some(m), s, None, None) => {
                let skin = match s {
                    Some(s) => Some(skins[s].clone()),
                    None => None,
                };
                Some(NodeData::Mesh(meshes[m].clone(), skin))
            },
            (None, None, Some(c), None) => Some(NodeData::Camera(cameras[c].clone())),
            (None, None, None, Some(l)) => Some(NodeData::Light(lights[l].clone())),
            _ => None,
        }
    }
}

/// A node of a scene, with its local transform `T`
#[derive(Debug)]
pub struct Node<T, M, S, C, L> {
    /// The unique ID of this node. No other node has this ID.
    pub id: NodeId,
    /// The name of the node (possibly empty), or None if the 3D file this was loaded from does
    /// not support node names
    pub name: Option<String>,
    /// The data contained in the node, or None if no data is present
    pub data: Option<NodeData<M, S, C, L>>,
    /// The **local** transform of this node, independent of its parents
    pub transform: T,
}

impl<T, M, S, C, L> Node<T, M, S, C, L> {
    /// The mesh of this node and the skin that deforms it, if the node holds a mesh
    pub fn mesh(&self) -> (mesh: Option<(&Arc<M>, Option<&Arc<S>>)>)
        ensures
            mesh == match self.data {
                Some(NodeData::Mesh(m, s)) => Some(
                    (
                        &m,
                        match s {
                            Some(s) => Some(&s),
                            None => None,
                        },
                    ),
                ),
                _ => None::<(&Arc<M>, Option<&Arc<S>>)>,
            },
    {
        match &self.data {
            Some(NodeData::Mesh(mesh, skin)) => Some((mesh, skin.as_ref())),
            _ => None,
        }
    }

    /// The camera of this node, if it holds one
    pub fn camera(&self) -> (camera: Option<&Arc<C>>)
        ensures
            camera == match self.data {
                Some(NodeData::Camera(c)) => Some(&c),
                _ => None::<&Arc<C>>,
            },
    {
        match &self.data {
            Some(NodeData::Camera(cam)) => Some(cam),
            _ => None,
        }
    }

    /// The light of this node, if it holds one
    pub fn light(&self) -> (light: Option<&Arc<L>>)
        ensures
            light == match self.data {
                Some(NodeData::Light(l)) => Some(&l),
                _ => None::<&Arc<L>>,
            },
    {
        match &self.data {
            Some(NodeData::Light(light)) => Some(light),
            _ => None,
        }
    }
}

} // verus!
