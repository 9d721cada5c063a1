//! Queries answered by the 3D files that are being rendered

use vstd::prelude::*;

use std::sync::Arc;

verus! {

/// A shared handle to an open 3D file, which answers queries about the lights and cameras it
/// holds. Answering may read the file, so it can fail.
pub trait QueryBackend {
    /// A query that selects lights of the file
    type LightQuery;
    /// A query that selects a camera of the file
    type CameraQuery;
    /// A light, as the file describes it
    type Light;
    /// A camera, as the file describes it
    type Camera;
    /// Why a query could not be answered
    type Error;

    /// The lights that the query selects
    fn query_lights(&self, query: &Self::LightQuery) -> Result<Arc<Vec<Arc<Self::Light>>>, Self::Error>;

    /// The camera that the query selects
    fn query_camera(&self, query: &Self::CameraQuery) -> Result<Arc<Self::Camera>, Self::Error>;
}

/// A query together with the file that answers it
#[derive(Debug)]
pub struct FileQuery<Q, F> {
    pub query: Q,
    pub file: Arc<F>,
}

} // verus!
