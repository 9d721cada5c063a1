pub mod camera;
pub mod draw;
pub mod geometry_cache;
pub mod joint_matrices_texture;
pub mod layout;
pub mod light;
pub mod render;
pub mod render_node;
pub mod rendered_image;
pub mod uniform_map;

pub use camera::Camera;
pub use geometry_cache::{GeometryCache, ModelRef};
pub use layout::{LayoutError, LayoutNode, LayoutOffset};
pub use light::Light;
pub use render_node::{GridLayout, GridLayoutCell, RenderLayout, RenderNode};
pub use rendered_image::{RenderLights, RenderedImage, Size};
pub use uniform_map::UniformMap;
pub use crate::query3d::FileQuery;
