//! Textures of a scene: the image each samples and how it is filtered and wrapped

use vstd::prelude::*;

use std::sync::Arc;

verus! {

/// The index of an image among the images of a loaded file.
///
/// Users of this ID maintain that it is valid: it is the position of its image in the list of
/// images it was loaded with.
#[derive(Debug, Clone, Copy, PartialEq, Eq, Hash, Structural)]
pub struct ImageId(pub usize);

/// An image of a loaded file, as its data `I`
#[derive(Debug)]
pub struct TexImage<I> {
    pub id: ImageId,
    pub data: I,
}

/// Magnification filter
#[derive(Clone, Copy, Debug, Eq, PartialEq, Structural)]
pub enum MagFilter {
    Nearest,
    Linear,
}

/// Minification filter
#[derive(Clone, Copy, Debug, Eq, PartialEq, Structural)]
pub enum MinFilter {
    Nearest,
    Linear,
    NearestMipmapNearest,
    LinearMipmapNearest,
    NearestMipmapLinear,
    LinearMipmapLinear,
}

/// Texture coordinate wrapping mode
#[derive(Clone, Copy, Debug, Eq, PartialEq, Structural)]
pub enum WrappingMode {
    ClampToEdge,
    MirroredRepeat,
    Repeat,
}

/// A texture: the image it samples and the sampler's filters and wrapping
#[derive(Debug)]
pub struct Texture<I> {
    pub image: Arc<TexImage<I>>,
    pub magnify_filter: Option<MagFilter>,
    pub minify_filter: Option<MinFilter>,
    pub wrap_function: WrappingMode,
}

impl<I> Texture<I> {
    /// The texture that samples the image at position `source` of `images` with the given
    /// sampler settings. Separate wrap functions for the s and t coordinates are not supported:
    /// they must be the same.
    pub fn from_sampler(
        source: usize,
        images: &[Arc<TexImage<I>>],
        magnify_filter: Option<MagFilter>,
        minify_filter: Option<MinFilter>,
        wrap_s: WrappingMode,
        wrap_t: WrappingMode,
    ) -> (texture: Self)
        requires
            source < images@.len(),
            wrap_s == wrap_t,
        ensures
            texture.image == images@[source as int],
            texture.magnify_filter == magnify_filter,
            texture.minify_filter == minify_filter,
            texture.wrap_function == wrap_s,
    {
        Texture { image: images[source].clone(), magnify_filter, minify_filter, wrap_function: wrap_s }
    }
}

} // verus!
