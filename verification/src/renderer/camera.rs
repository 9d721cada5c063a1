//! The matrices of a camera

use vstd::prelude::*;

verus! {

/// A camera, as its view and projection matrices `M`
#[derive(Debug)]
pub struct Camera<M> {
    /// The view matrix of this camera
    pub view: M,
    /// The projection matrix of this camera
    pub projection: M,
}

} // verus!
