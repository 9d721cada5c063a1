use std::sync::Arc;

use spritec::renderer::layout::{LayoutNode, LayoutOffset};
use spritec::renderer::render_node::{RenderLayout, RenderNode};
use spritec::renderer::rendered_image::{RenderedImage, Size};
use spritec::resolve_path::PathStyle;
use spritec::tasks::file_cache::{OpenFile, WeakFileCache};
use spritec::tasks::{pose_task, spritesheet_layout, spritesheet_task, step_weight, SheetRow};

fn size(width: u32, height: u32) -> Size {
    Size { width, height }
}

fn frames(frame_size: Size, ids: &[u32]) -> SheetRow<u32> {
    SheetRow {
        frame_size,
        frames: ids.to_vec(),
    }
}

#[test]
fn spritesheet_rows_are_padded_with_empty_cells() {
    let node = spritesheet_layout(vec![frames(size(4, 4), &[1, 2, 3]), frames(size(2, 6), &[4])]);
    let grid = match node {
        RenderNode::Layout(RenderLayout::Grid(grid)) => grid,
        _ => panic!("expected a grid"),
    };
    assert_eq!((grid.rows, grid.cols), (2, 3));
    assert_eq!(grid.cell_size, size(4, 6));
    assert_eq!(grid.cells.len(), 2);
    assert!(grid.cells.iter().all(|row| row.len() == 3));
    assert!(grid.cells.iter().flatten().all(|cell| cell.col_span == 1 && cell.row_span == 1));
    let second_row: Vec<Option<u32>> = grid.cells[1]
        .iter()
        .map(|cell| match &cell.node {
            RenderNode::RenderedImage(image) => {
                // Each frame is rendered at its animation's frame size
                assert_eq!(image.size, size(2, 6));
                Some(image.data)
            },
            RenderNode::Empty { size: s } => {
                assert_eq!(*s, size(2, 6));
                None
            },
            _ => panic!("unexpected node"),
        })
        .collect();
    assert_eq!(second_row, vec![Some(4), None, None]);
}

#[test]
fn spritesheet_layout_places_each_frame_in_its_own_cell() {
    let node = spritesheet_layout(vec![frames(size(4, 4), &[1, 2]), frames(size(2, 2), &[3])]);
    let layout = LayoutNode::from_render_node(node).unwrap();
    assert_eq!(layout.size(), size(8, 8));
    let list: Vec<(LayoutOffset, u32)> =
        layout.into_draw_list().into_iter().map(|(offset, image)| (offset, image.data)).collect();
    // The 2x2 frame is centered in its 4x4 cell
    assert_eq!(
        list,
        vec![
            (LayoutOffset { x: 0, y: 0 }, 1),
            (LayoutOffset { x: 4, y: 0 }, 2),
            (LayoutOffset { x: 1, y: 5 }, 3),
        ]
    );
}

#[test]
fn spritesheet_task_resolves_its_output_path() {
    let task = spritesheet_task(
        "out/../sheets/walk.png",
        "/home/me/project",
        PathStyle::Unix,
        3,
        vec![frames(size(1, 1), &[1])],
    );
    assert_eq!(task.output_path, "/home/me/project/sheets/walk.png");
    assert_eq!(task.job.scale, 3);
    assert!(matches!(task.job.root, RenderNode::Layout(_)));
}

#[test]
fn pose_task_renders_one_image() {
    let image = RenderedImage { size: size(64, 32), data: 7 };
    let task = pose_task("pose.png", "C:\\art", PathStyle::Windows, 2, image);
    assert_eq!(task.output_path, "C:\\art\\pose.png");
    assert_eq!(task.job.scale, 2);
    match task.job.root {
        RenderNode::RenderedImage(image) => assert_eq!((image.size, image.data), (size(64, 32), 7)),
        _ => panic!("expected an image"),
    }
}

#[derive(Debug, PartialEq)]
struct TestFile {
    path: String,
    gltf: bool,
}

impl OpenFile for TestFile {
    type Error = String;

    fn open(path: &str) -> Result<Self, String> {
        if path.ends_with(".missing") {
            Err(format!("no such file: {}", path))
        } else {
            Ok(TestFile { path: path.to_string(), gltf: false })
        }
    }

    fn open_gltf(path: &str) -> Result<Self, String> {
        Ok(TestFile { path: path.to_string(), gltf: true })
    }
}

#[test]
fn file_cache_reuses_open_files() {
    let mut cache: WeakFileCache<TestFile> = WeakFileCache::new();
    assert!(cache.get("/a.obj").is_none());
    let first = cache.open("/a.obj").unwrap();
    let second = cache.open("/a.obj").unwrap();
    assert!(Arc::ptr_eq(&first, &second));
    assert_eq!(*cache.get("/a.obj").unwrap(), TestFile { path: "/a.obj".to_string(), gltf: false });
}

#[test]
fn file_cache_forgets_dropped_files() {
    let mut cache: WeakFileCache<TestFile> = WeakFileCache::new();
    let file = cache.open_gltf("/b.gltf").unwrap();
    assert!(file.gltf);
    drop(file);
    assert!(cache.get("/b.gltf").is_none());
    let again = cache.open_gltf("/b.gltf").unwrap();
    assert!(cache.get("/b.gltf").is_some());
    assert_eq!(again.path, "/b.gltf");
}

#[test]
fn file_cache_reports_open_errors() {
    let mut cache: WeakFileCache<TestFile> = WeakFileCache::new();
    assert_eq!(cache.open("/c.missing").err(), Some("no such file: /c.missing".to_string()));
    assert!(cache.get("/c.missing").is_none());
}

#[test]
fn step_weights_spread_frames_from_start_to_end() {
    assert_eq!(step_weight(0, 1), (0, 1));
    assert_eq!([step_weight(0, 2), step_weight(1, 2)], [(0, 1), (1, 1)]);
    assert_eq!([step_weight(0, 3), step_weight(1, 3), step_weight(2, 3)], [(0, 2), (1, 2), (2, 2)]);
    assert_eq!(
        [step_weight(0, 4), step_weight(1, 4), step_weight(2, 4), step_weight(3, 4)],
        [(0, 3), (1, 3), (2, 3), (3, 3)]
    );
}

#[test]
fn open_or_reuse_hands_back_the_cached_file_without_opening() {
    let mut cache: WeakFileCache<TestFile> = WeakFileCache::new();
    let cached = Arc::new(TestFile { path: "/d.obj".to_string(), gltf: false });
    let file: Result<Arc<TestFile>, String> = cache.open_or_reuse(Some(cached.clone()), "/d.obj", |_| -> Result<TestFile, String> {
        panic!("a file found in the cache is not opened again")
    });
    assert!(Arc::ptr_eq(&file.unwrap(), &cached));
    assert!(cache.get("/d.obj").is_none());
}

#[test]
fn open_or_reuse_opens_and_remembers_when_nothing_was_found() {
    let mut cache: WeakFileCache<TestFile> = WeakFileCache::new();
    let file = cache.open_or_reuse(None, "/e.obj", TestFile::open).unwrap();
    assert!(Arc::ptr_eq(&file, &cache.get("/e.obj").unwrap()));
    let failed = cache.open_or_reuse(None, "/f.missing", TestFile::open);
    assert_eq!(failed.err(), Some("no such file: /f.missing".to_string()));
    assert!(cache.get("/f.missing").is_none());
}
