//! A render request: what to draw, at which size and scale, seen from where and lit by what

use vstd::prelude::*;

use crate::query3d::FileQuery;
use super::rendered_image::Size;

verus! {

/// A render request. `B` is the background color, `C` the camera, `L` a light and `G` a model
/// to draw.
#[derive(Debug)]
pub struct Render<B, C, L, G> {
    /// The size at which to render the generated image
    pub size: Size,
    /// A scale factor to apply to the generated image. The image is scaled without
    /// interpolation. The value must be greater than zero.
    pub scale: u32,
    /// The background color of the generated image
    pub background: B,
    /// The camera perspective from which to render each frame
    pub camera: C,
    /// The lights to use to light the rendered scene
    pub lights: Vec<L>,
    /// The models to draw in the rendered image
    pub models: Vec<G>,
}

impl<B, C, L, G> Render<B, C, L, G> {
    /// The size of the generated image once scaled: each dimension times the scale factor
    pub fn total_size(&self) -> (size: Size)
        requires
            self.size.width * self.scale <= u32::MAX,
            self.size.height * self.scale <= u32::MAX,
        ensures
            size.width == self.size.width * self.scale,
            size.height == self.size.height * self.scale,
            self.size.wf() && self.scale > 0 ==> size.wf(),
    {
        let scale = self.scale;
        proof {
            if self.size.wf() && scale > 0 {
                assert(self.size.width * scale > 0) by (nonlinear_arith)
                    requires
                        self.size.width > 0,
                        scale > 0,
                ;
                assert(self.size.height * scale > 0) by (nonlinear_arith)
                    requires
                        self.size.height > 0,
                        scale > 0,
                ;
            }
        }
        Size { width: self.size.width * scale, height: self.size.height * scale }
    }
}

/// A model to draw: the query that selects its geometry in a file, and the outline `O` to draw
/// around it
#[derive(Debug)]
pub struct RenderGeometry<Q, F, O> {
    pub geometry: FileQuery<Q, F>,
    pub outline: O,
}

/// The camera of a render request: a camera `C` given outright, or a query for one
#[derive(Debug)]
pub enum RenderCamera<C, Q, F> {
    Camera(C),
    Query(FileQuery<Q, F>),
}

impl<C, Q, F> RenderCamera<C, Q, F> {
    /// The camera given outright. Cameras from queries are not supported by render requests.
    pub fn to_camera<E>(self) -> (camera: Result<C, E>)
        requires
            self is Camera,
        ensures
            camera == Ok::<C, E>(self->Camera_0),
    {
        match self {
            RenderCamera::Camera(cam) => Ok(cam),
            RenderCamera::Query(_) => vstd::pervasive::unreached(),
        }
    }
}

/// A light of a render request: a light `L` given outright, or a query for one
#[derive(Debug)]
pub enum RenderLight<L, Q, F> {
    Light(L),
    Query(FileQuery<Q, F>),
}

impl<L, Q, F> RenderLight<L, Q, F> {
    /// The light given outright. Lights from queries are not supported by render requests.
    pub fn to_light<E>(self) -> (light: Result<L, E>)
        requires
            self is Light,
        ensures
            light == Ok::<L, E>(self->Light_0),
    {
        match self {
            RenderLight::Light(light) => Ok(light),
            RenderLight::Query(_) => vstd::pervasive::unreached(),
        }
    }
}

} // verus!
