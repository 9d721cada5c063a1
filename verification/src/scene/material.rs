//! Materials: the diffuse color of a surface and the texture it samples

use vstd::prelude::*;

use std::sync::Arc;

use super::texture::Texture;

verus! {

/// A material: its diffuse color `C`, and the texture (of images `I`) sampled for it, if any
#[derive(Debug)]
pub struct Material<C, I> {
    pub diffuse_color: C,
    pub texture: Option<Arc<Texture<I>>>,
}

impl<C, I> Material<C, I> {
    /// The material of a glTF PBR description: its base color factor, and its base color
    /// texture as the texture coordinate set it samples with and the position of the texture
    /// among `textures`. Only texture coordinate set 0 is supported.
    pub fn from_base_color(
        diffuse_color: C,
        base_color_texture: Option<(u32, usize)>,
        textures: &[Arc<Texture<I>>],
    ) -> (material: Self)
        requires
            base_color_texture matches Some((tex_coord, index)) ==> tex_coord == 0 && index
                < textures@.len(),
        ensures
            material.diffuse_color == diffuse_color,
            material.texture == match base_color_texture {
                Some((_, index)) => Some(textures@[index as int]),
                None => None,
            },
    {
        let texture = match base_color_texture {
            Some((_, index)) => Some(textures[index].clone()),
            None => None,
        };
        Material { diffuse_color, texture }
    }
}

} // verus!
