use vstd::prelude::*;

use std::sync::Arc;

use crate::query3d::{FileQuery, QueryBackend};

verus! {

/// The dimensions of an image in pixels. Both dimensions are nonzero in every valid size.
#[derive(Debug, Clone, Copy, PartialEq, Eq, Structural)]
pub struct Size {
    pub width: u32,
    pub height: u32,
}

impl Size {
    /// A size is valid when neither dimension is zero.
    pub open spec fn wf(self) -> bool {
        self.width > 0 && self.height > 0
    }

    /// The smallest valid size: one pixel by one pixel.
    pub fn min_value() -> (s: Self)
        ensures
            s.width == 1,
            s.height == 1,
            s.wf(),
    {
        Size { width: 1, height: 1 }
    }

    /// The componentwise maximum of two sizes.
    pub fn max(self, other: Self) -> (s: Self)
        ensures
            s.width == (if self.width >= other.width { self.width } else { other.width }),
            s.height == (if self.height >= other.height { self.height } else { other.height }),
            self.wf() ==> s.wf(),
            other.wf() ==> s.wf(),
    {
        let width = if self.width >= other.width { self.width } else { other.width };
        let height = if self.height >= other.height { self.height } else { other.height };
        Size { width, height }
    }
}

/// An image that will be rendered, as the layout sees it: its size in pixels and the
/// description of what to draw in it (camera, lights, geometry, colors), which the layout
/// carries along untouched.
#[derive(Debug, Clone)]
pub struct RenderedImage<D> {
    /// The size at which to render the generated image
    pub size: Size,
    /// What to draw: background, camera, lights, geometry and outline
    pub data: D,
}

/// The camera perspective from which to render an image: a camera given outright, or one that
/// a file answers a query for
#[derive(Debug)]
pub enum RenderCamera<F: QueryBackend> {
    Camera(Arc<F::Camera>),
    Query(FileQuery<F::CameraQuery, F>),
}

impl<F: QueryBackend> RenderCamera<F> {
    /// The camera: the one given outright, or whatever the file answers to the query
    pub fn fetch_camera(&self) -> (camera: Result<Arc<F::Camera>, F::Error>)
        ensures
            self is Camera ==> camera == Ok::<Arc<F::Camera>, F::Error>(self->Camera_0),
            self matches RenderCamera::Query(q) ==> call_ensures(
                F::query_camera,
                (&*q.file, &q.query),
                camera,
            ),
    {
        match self {
            RenderCamera::Camera(cam) => Ok(cam.clone()),
            RenderCamera::Query(FileQuery { query, file }) => file.query_camera(query),
        }
    }
}

/// The lights to use to light a rendered scene: lights given outright, or those that a file
/// answers a query for
#[derive(Debug)]
pub enum RenderLights<F: QueryBackend> {
    Lights(Arc<Vec<Arc<F::Light>>>),
    Query(FileQuery<F::LightQuery, F>),
}

impl<F: QueryBackend> RenderLights<F> {
    /// The lights: those given outright, or whatever the file answers to the query
    pub fn fetch_lights(&self) -> (lights: Result<Arc<Vec<Arc<F::Light>>>, F::Error>)
        ensures
            self is Lights ==> lights == Ok::<Arc<Vec<Arc<F::Light>>>, F::Error>(self->Lights_0),
            self matches RenderLights::Query(q) ==> call_ensures(
                F::query_lights,
                (&*q.file, &q.query),
                lights,
            ),
    {
        match self {
            RenderLights::Lights(lights) => Ok(lights.clone()),
            RenderLights::Query(FileQuery { query, file }) => file.query_lights(query),
        }
    }
}

} // verus!
