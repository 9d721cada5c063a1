use std::sync::Arc;

use spritec::renderer::joint_matrices_texture::joint_texture_rows;
use spritec::scene::geometry::{material_or_default, repeat, triples, Geometry};
use spritec::scene::material::Material;
use spritec::scene::texture::{ImageId, TexImage, Texture, WrappingMode};

type TestGeometry = Geometry<[i32; 3], (i32, i32), [i32; 4], &'static str>;

fn geometry(tex_coords: Option<Vec<(i32, i32)>>, joints: Option<(Vec<[u32; 4]>, Vec<[i32; 4]>)>) -> TestGeometry {
    let (joint_influences, joint_weights) = match joints {
        Some((influences, weights)) => (Some(influences), Some(weights)),
        None => (None, None),
    };
    Geometry::from_gltf_attributes(
        vec![0, 1, 2],
        vec![[0, 0, 0], [1, 0, 0], [0, 1, 0]],
        vec![[0, 0, 1], [0, 0, 1], [0, 0, 1]],
        tex_coords,
        joint_influences,
        joint_weights,
        Arc::new("material"),
    )
}

#[test]
fn triples_group_coordinates_in_threes() {
    assert_eq!(triples(&vec![1, 2, 3, 4, 5, 6], 0), vec![[1, 2, 3], [4, 5, 6]]);
    assert!(triples(&Vec::<i32>::new(), 0).is_empty());
}

#[test]
fn triples_complete_a_short_last_group_with_the_fill() {
    assert_eq!(triples(&vec![1, 2, 3, 4], 0), vec![[1, 2, 3], [4, 0, 0]]);
    assert_eq!(triples(&vec![1, 2, 3, 4, 5], -1), vec![[1, 2, 3], [4, 5, -1]]);
}

#[test]
fn repeat_makes_copies() {
    assert_eq!(repeat(3, 7u8), vec![7, 7, 7]);
    assert!(repeat(0, 7u8).is_empty());
}

#[test]
fn material_lookup_falls_back_to_the_default() {
    let materials = vec![Arc::new("red"), Arc::new("blue")];
    assert_eq!(*material_or_default(Some(1), &materials, Arc::new("white")), "blue");
    assert_eq!(*material_or_default(None, &materials, Arc::new("white")), "white");
}

#[test]
fn gltf_geometry_has_no_name() {
    let geo = geometry(None, None);
    assert_eq!(geo.name, None);
    assert_eq!(geo.indices, vec![0, 1, 2]);
    assert_eq!(*geo.material, "material");
}

#[test]
fn missing_vertex_attributes_get_defaults() {
    let (attrs, material) = geometry(None, None).into_vertex_attributes(false, (0, 0), [1, 0, 0, 0]);
    assert_eq!(attrs.indices, vec![0, 1, 2]);
    assert_eq!(attrs.positions, vec![[0, 0, 0], [1, 0, 0], [0, 1, 0]]);
    assert_eq!(attrs.normals, vec![[0, 0, 1], [0, 0, 1], [0, 0, 1]]);
    assert_eq!(attrs.tex_coords, vec![(0, 0); 3]);
    assert_eq!(attrs.joint_influences, vec![[0, 0, 0, 0]; 3]);
    assert_eq!(attrs.joint_weights, vec![[1, 0, 0, 0]; 3]);
    assert_eq!(*material, "material");
}

#[test]
fn present_vertex_attributes_are_kept() {
    let tex_coords = vec![(1, 2), (3, 4), (5, 6)];
    let influences = vec![[1, 2, 0, 0], [3, 0, 0, 0], [2, 2, 2, 2]];
    let weights = vec![[5, 5, 0, 0], [10, 0, 0, 0], [3, 3, 2, 2]];
    let geo = geometry(Some(tex_coords.clone()), Some((influences.clone(), weights.clone())));
    let (attrs, _) = geo.into_vertex_attributes(true, (0, 0), [1, 0, 0, 0]);
    assert_eq!(attrs.tex_coords, tex_coords);
    assert_eq!(attrs.joint_influences, influences);
    assert_eq!(attrs.joint_weights, weights);
}

#[test]
fn material_from_base_color() {
    let image = Arc::new(TexImage { id: ImageId(0), data: () });
    let textures: Vec<Arc<Texture<()>>> = (0..2)
        .map(|_| {
            Arc::new(Texture {
                image: image.clone(),
                magnify_filter: None,
                minify_filter: None,
                wrap_function: WrappingMode::Repeat,
            })
        })
        .collect();
    let plain = Material::from_base_color([1, 1, 1, 1], None, &textures);
    assert_eq!(plain.diffuse_color, [1, 1, 1, 1]);
    assert!(plain.texture.is_none());
    let textured = Material::from_base_color([2, 2, 2, 2], Some((0, 1)), &textures);
    assert!(Arc::ptr_eq(textured.texture.as_ref().unwrap(), &textures[1]));
}

#[test]
fn joint_texture_rows_hold_one_column_of_every_matrix() {
    let matrices = vec![[1, 2, 3, 4], [5, 6, 7, 8]];
    assert_eq!(joint_texture_rows(&matrices), vec![vec![1, 5], vec![2, 6], vec![3, 7], vec![4, 8]]);
    assert_eq!(joint_texture_rows::<u8>(&vec![]), vec![Vec::<u8>::new(); 4]);
}
