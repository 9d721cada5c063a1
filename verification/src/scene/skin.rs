//! Skins: the joints that deform a mesh

use vstd::prelude::*;

use core::ops::Mul;
use vstd::std_specs::ops::MulSpec;

use super::node_tree::NodeId;

verus! {

/// A joint of a skin, with its transform type `M`
#[derive(Debug, Clone)]
pub struct Joint<M> {
    /// The node that this joint refers to
    pub node_id: NodeId,
    /// Matrix that transforms coordinates being skinned into the same space as the joint
    pub inverse_bind_matrix: M,
}

/// A skin: its joints, in order
#[derive(Debug, Clone)]
pub struct Skin<M> {
    pub joints: Vec<Joint<M>>,
}

/// The number of joints made of the nodes and the inverse-bind matrices: as many as there are
/// both (as many as nodes without matrices)
pub open spec fn zipped_len<M>(node_ids: Seq<NodeId>, inverse_bind_matrices: Option<Vec<M>>) -> int {
    match inverse_bind_matrices {
        Some(ms) => if node_ids.len() <= ms@.len() {
            node_ids.len() as int
        } else {
            ms@.len() as int
        },
        None => node_ids.len() as int,
    }
}

/// The `i`-th joint made of the nodes and the inverse-bind matrices (the identity without
/// matrices)
pub open spec fn zipped_joint<M>(
    node_ids: Seq<NodeId>,
    inverse_bind_matrices: Option<Vec<M>>,
    identity: M,
    i: int,
) -> Joint<M> {
    Joint {
        node_id: node_ids[i],
        inverse_bind_matrix: match inverse_bind_matrices {
            Some(ms) => ms@[i],
            None => identity,
        },
    }
}

impl<M: Copy> Skin<M> {
    /// The skin whose joints are the given nodes, each paired with its inverse-bind matrix in
    /// order (as many joints as there are both nodes and matrices). Without inverse-bind
    /// matrices, each is the identity, which implies that the inverse-bind matrices were
    /// pre-applied.
    pub fn from_joints(node_ids: Vec<NodeId>, inverse_bind_matrices: Option<Vec<M>>, identity: M) -> (skin: Self)
        ensures
            skin.joints@.len() == zipped_len(node_ids@, inverse_bind_matrices),
            forall|i: int|
                0 <= i < skin.joints@.len() ==> #[trigger] skin.joints@[i] == zipped_joint(
                    node_ids@,
                    inverse_bind_matrices,
                    identity,
                    i,
                ),
    {
        let n = match &inverse_bind_matrices {
            Some(ms) => if node_ids.len() <= ms.len() {
                node_ids.len()
            } else {
                ms.len()
            },
            None => node_ids.len(),
        };
        let mut joints: Vec<Joint<M>> = Vec::new();
        let mut i: usize = 0;
        while i < n
            invariant
                i <= n,
                n == zipped_len(node_ids@, inverse_bind_matrices),
                joints@.len() == i,
                forall|k: int|
                    0 <= k < i ==> #[trigger] joints@[k] == zipped_joint(
                        node_ids@,
                        inverse_bind_matrices,
                        identity,
                        k,
                    ),
            decreases n - i,
        {
            let inverse_bind_matrix = match &inverse_bind_matrices {
                Some(ms) => ms[i],
                None => identity,
            };
            joints.push(Joint { node_id: node_ids[i], inverse_bind_matrix });
            i += 1;
        }
        Skin { joints }
    }
}

impl<M: Copy + Mul<Output = M>> Skin<M> {
    /// Computes the joint matrices using the skin data: for each joint, in order, the inverse of
    /// the world transform of the node the mesh is attached to, times the world transform of the
    /// joint's node, times the joint's inverse-bind matrix.
    ///
    /// `node_world_transforms` holds the world transform of each node, by node index. Every
    /// product must be defined (`mul_req`), as it is for any type whose multiplication cannot
    /// fail, such as matrices of floating-point numbers; the products are stated for types whose
    /// multiplication follows its specification.
    pub fn joint_matrices(&self, inverse_model_transform: M, node_world_transforms: &[M]) -> (matrices: Vec<M>)
        requires
            forall|i: int|
                0 <= i < self.joints@.len() ==> (#[trigger] self.joints@[i]).node_id.0
                    < node_world_transforms@.len(),
            forall|a: M, b: M| #[trigger] a.mul_req(b),
        ensures
            matrices@.len() == self.joints@.len(),
            M::obeys_mul_spec() ==> forall|i: int|
                0 <= i < matrices@.len() ==> #[trigger] matrices@[i] == inverse_model_transform.mul_spec(
                    node_world_transforms@[self.joints@[i].node_id.0 as int],
                ).mul_spec(self.joints@[i].inverse_bind_matrix),
    {
        let mut matrices: Vec<M> = Vec::new();
        let mut i: usize = 0;
        while i < self.joints.len()
            invariant
                i <= self.joints@.len(),
                forall|k: int|
                    0 <= k < self.joints@.len() ==> (#[trigger] self.joints@[k]).node_id.0
                        < node_world_transforms@.len(),
                forall|a: M, b: M| #[trigger] a.mul_req(b),
                matrices@.len() == i,
                M::obeys_mul_spec() ==> forall|k: int|
                    0 <= k < i ==> #[trigger] matrices@[k] == inverse_model_transform.mul_spec(
                        node_world_transforms@[self.joints@[k].node_id.0 as int],
                    ).mul_spec(self.joints@[k].inverse_bind_matrix),
            decreases self.joints@.len() - i,
        {
            let joint = &self.joints[i];
            assert(joint.node_id.0 < node_world_transforms@.len());
            // the world transform of the joint
            let joint_transform = node_world_transforms[joint.node_id.0];

            // jointMatrix(j) =
            //   globalTransformOfNodeThatTheMeshIsAttachedTo^-1 *
            //   globalTransformOfJointNode(j) *
            //   inverseBindMatrixForJoint(j);
            let partial = inverse_model_transform * joint_transform;
            matrices.push(partial * joint.inverse_bind_matrix);
            i += 1;
        }
        matrices
    }
}

} // verus!
