//! Layout, image-compositing, path and scene-graph logic of the spritec sprite compiler.
//!
//! The GPU renderer, file loaders and floating-point math live outside this crate; the
//! library holds the parts that decide where each sprite goes, how images are scaled and
//! copied, how paths are resolved and how the scene hierarchy is walked.
pub mod name_map;
pub mod query3d;
pub mod renderer;
pub mod resolve_path;
pub mod scene;
pub mod scale;
pub mod spritesheet;
pub mod tasks;
