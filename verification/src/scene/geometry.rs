//! The geometry of a mesh primitive, and what the GPU is handed of it

use vstd::prelude::*;

use std::sync::Arc;

verus! {

/// The geometry of a primitive. `V` is a 3D vector (of a position or a normal), `T` a texture
/// coordinate, `W` the weights of the (up to 4) joints that influence a vertex and `M` the
/// material.
#[derive(Debug)]
pub struct Geometry<V, T, W, M> {
    /// The name of the primitive (possibly empty), or None if the 3D file this was loaded from does
    /// not support mesh names
    pub name: Option<String>,
    /// The indexes that represent the triangles of the geometry
    pub indices: Vec<u32>,
    /// The position of each vertex of the geometry
    pub positions: Vec<V>,
    /// The normal of each vertex of the geometry
    pub normals: Vec<V>,
    /// The texture coordinates of each vertex of the geometry
    pub tex_coords: Option<Vec<T>>,
    /// The joint indexes (up to 4) that affect each vertex of the geometry.
    /// These indexes map into the `joints` array in the `Skin` data applied to this geometry.
    ///
    /// If there are less than 4, this array will still contain valid indexes. The corresponding
    /// weights will be 0.0.
    ///
    /// If this field is None, `joint_weights` will also be None.
    pub joint_influences: Option<Vec<[u32; 4]>>,
    /// The weight of each influencing joint (up to 4) for each vertex of the geometry
    ///
    /// If this field is None, `joint_influences` will also be None.
    pub joint_weights: Option<Vec<W>>,
    /// The material associated with this geometry
    pub material: Arc<M>,
}

/// `n` copies of `a`
pub open spec fn repeated<A>(n: nat, a: A) -> Seq<A> {
    Seq::new(n, |_i: int| a)
}

/// A list of `n` copies of `a`
pub fn repeat<A: Copy>(n: usize, a: A) -> (list: Vec<A>)
    ensures
        list@ == repeated(n as nat, a),
{
    let mut list: Vec<A> = Vec::new();
    let mut i: usize = 0;
    while i < n
        invariant
            i <= n,
            list@ == repeated(i as nat, a),
        decreases n - i,
    {
        list.push(a);
        i += 1;
        assert(list@ =~= repeated(i as nat, a));
    }
    list
}

/// The entry at position `k` of a flat list, or `fill` past its end
pub open spec fn entry_or<A>(flat: Seq<A>, k: int, fill: A) -> A {
    if k < flat.len() {
        flat[k]
    } else {
        fill
    }
}

/// Group `i` of a flat list taken three entries at a time: a last group of fewer than three
/// entries is completed with `fill`
pub open spec fn triple_at<A>(flat: Seq<A>, fill: A, i: int) -> [A; 3] {
    [entry_or(flat, 3 * i, fill), entry_or(flat, 3 * i + 1, fill), entry_or(flat, 3 * i + 2, fill)]
}

/// The entries of a flat list of coordinates taken three at a time, in order, as the 3D vectors
/// they make up. A last group of fewer than three entries is completed with `fill`, as a vector
/// built from a short slice is.
pub fn triples<A: Copy>(flat: &Vec<A>, fill: A) -> (groups: Vec<[A; 3]>)
    ensures
        groups@.len() == (flat@.len() + 2) / 3,
        forall|i: int| 0 <= i < groups@.len() ==> #[trigger] groups@[i] == triple_at(flat@, fill, i),
{
    let len = flat.len();
    let count = if len % 3 == 0 {
        len / 3
    } else {
        len / 3 + 1
    };
    assert(count == (len + 2) / 3) by (nonlinear_arith)
        requires
            len % 3 == 0 ==> count == len / 3,
            len % 3 != 0 ==> count == len / 3 + 1,
    ;
    let mut groups: Vec<[A; 3]> = Vec::new();
    let mut i: usize = 0;
    while i < count
        invariant
            len == flat@.len(),
            count == (len + 2) / 3,
            i <= count,
            groups@.len() == i,
            forall|j: int| 0 <= j < i ==> #[trigger] groups@[j] == triple_at(flat@, fill, j),
        decreases count - i,
    {
        assert(3 * i < len) by (nonlinear_arith)
            requires
                i < count,
                count == (len + 2) / 3,
        ;
        let base = 3 * i;
        let remaining = len - base;
        let a = flat[base];
        let b = if remaining > 1 {
            flat[base + 1]
        } else {
            fill
        };
        let c = if remaining > 2 {
            flat[base + 2]
        } else {
            fill
        };
        groups.push([a, b, c]);
        i += 1;
    }
    groups
}

/// The material at position `index` among `materials`, or `default` where there is no index
/// (a glTF primitive with the default material, or an OBJ model with none)
pub fn material_or_default<M>(index: Option<usize>, materials: &[Arc<M>], default: Arc<M>) -> (material:
    Arc<M>)
    requires
        index matches Some(i) ==> i < materials@.len(),
    ensures
        material == match index {
            Some(i) => materials@[i as int],
            None => default,
        },
{
    match index {
        Some(i) => materials[i].clone(),
        None => default,
    }
}

/// What the GPU is handed of a geometry: one texture coordinate, one set of joint influences
/// and one set of joint weights for every vertex
#[derive(Debug)]
pub struct VertexAttributes<V, T, W> {
    pub indices: Vec<u32>,
    pub positions: Vec<V>,
    pub normals: Vec<V>,
    pub tex_coords: Vec<T>,
    pub joint_influences: Vec<[u32; 4]>,
    pub joint_weights: Vec<W>,
}

impl<V, T: Copy, W: Copy, M> Geometry<V, T, W, M> {
    /// The vertex attributes handed to the GPU for this geometry, and its material.
    ///
    /// Missing texture coordinates default to `zero` for every vertex; a geometry whose
    /// material has a texture (`has_texture`) must have them. Missing joint data defaults to
    /// joint 0 with weights `first_only` (1 for the first joint, 0 for the others) for every
    /// vertex: with the identity as the only joint matrix, this multiplies each vertex by a
    /// single identity matrix. A geometry has either both joint influences and joint weights or
    /// neither.
    pub fn into_vertex_attributes(self, has_texture: bool, zero: T, first_only: W) -> (result: (
        VertexAttributes<V, T, W>,
        Arc<M>,
    ))
        requires
            !(self.tex_coords is None && has_texture),
            self.joint_influences is Some <==> self.joint_weights is Some,
        ensures
            result.0.indices == self.indices,
            result.0.positions == self.positions,
            result.0.normals == self.normals,
            result.0.tex_coords@ == match self.tex_coords {
                Some(tex_coords) => tex_coords@,
                None => repeated(self.positions@.len(), zero),
            },
            result.0.joint_influences@ == match self.joint_influences {
                Some(influences) => influences@,
                None => repeated(self.positions@.len(), [0u32, 0u32, 0u32, 0u32]),
            },
            result.0.joint_weights@ == match self.joint_weights {
                Some(weights) => weights@,
                None => repeated(self.positions@.len(), first_only),
            },
            result.1 == self.material,
    {
        let Geometry {
            name: _,
            indices,
            positions,
            normals,
            tex_coords,
            joint_influences,
            joint_weights,
            material,
        } = self;
        let n = positions.len();
        let tex_coords = match tex_coords {
            Some(tex_coords) => tex_coords,
            None => repeat(n, zero),
        };
        let (joint_influences, joint_weights) = match (joint_influences, joint_weights) {
            (Some(influences), Some(weights)) => (influences, weights),
            (None, None) => (repeat(n, [0u32, 0u32, 0u32, 0u32]), repeat(n, first_only)),
            (Some(_), None) => {
                proof {
                    assert(false);
                }
                (Vec::new(), Vec::new())
            },
            (None, Some(_)) => {
                proof {
                    assert(false);
                }
                (Vec::new(), Vec::new())
            },
        };
        (VertexAttributes { indices, positions, normals, tex_coords, joint_influences, joint_weights }, material)
    }
}

impl<V, T, W, M> Geometry<V, T, W, M> {
    /// Every vertex has a normal, and joint influences and weights are either both given, one
    /// for every vertex, or both absent
    pub open spec fn attributes_match(self) -> bool {
        &&& self.normals@.len() == self.positions@.len()
        &&& (self.joint_influences is Some <==> self.joint_weights is Some)
        &&& (self.joint_influences matches Some(influences) ==> influences@.len()
            == self.positions@.len())
        &&& (self.joint_weights matches Some(weights) ==> weights@.len() == self.positions@.len())
    }

    /// The geometry of a glTF primitive, from the attributes read from its buffers. glTF
    /// primitives have no names. Every vertex must have a normal, and joint influences and
    /// weights must be both given, one for every vertex, or both absent.
    pub fn from_gltf_attributes(
        indices: Vec<u32>,
        positions: Vec<V>,
        normals: Vec<V>,
        tex_coords: Option<Vec<T>>,
        joint_influences: Option<Vec<[u32; 4]>>,
        joint_weights: Option<Vec<W>>,
        material: Arc<M>,
    ) -> (geometry: Self)
        requires
            normals@.len() == positions@.len(),
            joint_influences is Some <==> joint_weights is Some,
            joint_influences matches Some(influences) ==> influences@.len() == positions@.len(),
            joint_weights matches Some(weights) ==> weights@.len() == positions@.len(),
        ensures
            geometry.name is None,
            geometry.indices == indices,
            geometry.positions == positions,
            geometry.normals == normals,
            geometry.tex_coords == tex_coords,
            geometry.joint_influences == joint_influences,
            geometry.joint_weights == joint_weights,
            geometry.material == material,
            geometry.attributes_match(),
    {
        Geometry {
            name: None,
            indices,
            positions,
            normals,
            tex_coords,
            joint_influences,
            joint_weights,
            material,
        }
    }
}

/// A mesh: its name and its geometry `G`, one per primitive
#[derive(Debug)]
pub struct Mesh<G> {
    /// The name of the mesh (possibly empty), or None if the 3D file this was loaded from does
    /// not support mesh names
    pub name: Option<String>,
    /// The geometry stored in this mesh and their associated materials
    pub geometry: Vec<G>,
}

} // verus!
