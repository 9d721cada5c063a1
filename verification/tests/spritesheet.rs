use spritec::spritesheet::{Animation, AnimationFrame, AnimationFrames, GridSize, ImageSize, Spritesheet};

fn gltf_frames(start_frame: usize, end_frame: usize) -> AnimationFrames<(), ()> {
    AnimationFrames::GltfFrames { model: (), animation: None, start_frame, end_frame }
}

fn animation(frames: AnimationFrames<(), ()>, frame_width: usize, frame_height: usize) -> Animation<(), (), ()> {
    Animation { frames, frame_width, frame_height, camera: () }
}

fn sheet(animations: Vec<Animation<(), (), ()>>) -> Spritesheet<(), (), (), ()> {
    Spritesheet { path: String::from("/out/sheet.png"), animations, scale: 1, background: () }
}

#[test]
fn frame_count_is_inclusive_of_both_ends() {
    assert_eq!(gltf_frames(3, 3).len(), 1);
    assert_eq!(gltf_frames(2, 10).len(), 9);
    assert_eq!(AnimationFrames::<(), ()>::Models(vec![(), (), ()]).len(), 3);
}

#[test]
fn animation_width_is_frames_side_by_side() {
    let anim = animation(gltf_frames(0, 3), 32, 16);
    assert_eq!(anim.width(), 128);
    assert_eq!(anim.frame_size(), [32, 16]);
}

#[test]
fn animation_width_truncates_like_a_cast() {
    let anim = animation(AnimationFrames::Models(vec![(), ()]), 1 << 31, 1);
    assert_eq!(anim.width(), 0);
}

#[test]
fn grid_and_image_size_of_a_spritesheet() {
    let sheet = sheet(vec![
        animation(gltf_frames(0, 4), 10, 20),
        animation(AnimationFrames::Models(vec![(), ()]), 30, 5),
        animation(gltf_frames(7, 7), 8, 8),
    ]);
    assert_eq!(sheet.grid_size(), GridSize { rows: 3, cols: 5 });
    assert_eq!(sheet.image_size(), ImageSize { width: 60, height: 33 });
}

#[test]
fn empty_spritesheet_has_zero_size() {
    let sheet = sheet(vec![]);
    assert_eq!(sheet.grid_size(), GridSize { rows: 0, cols: 0 });
    assert_eq!(sheet.image_size(), ImageSize { width: 0, height: 0 });
}

#[test]
fn frame_offsets_place_each_row_below_the_last() {
    let sheet = sheet(vec![
        animation(gltf_frames(0, 2), 10, 20),
        animation(AnimationFrames::Models(vec![(), ()]), 30, 5),
        animation(gltf_frames(7, 7), 8, 8),
    ]);
    let offsets = sheet.frame_offsets();
    assert_eq!(
        offsets,
        vec![
            vec![[0, 0], [10, 0], [20, 0]],
            vec![[0, 20], [30, 20]],
            vec![[0, 25]],
        ]
    );
}

#[test]
fn frame_offsets_of_an_empty_spritesheet() {
    assert!(sheet(vec![]).frame_offsets().is_empty());
}

#[test]
fn gltf_frames_run_from_start_to_end() {
    let frames = AnimationFrames::<&str, ()>::GltfFrames {
        model: "walk.gltf",
        animation: Some(String::from("walk")),
        start_frame: 2,
        end_frame: 4,
    };
    let numbers: Vec<usize> = frames
        .iter()
        .into_iter()
        .map(|frame| match frame {
            AnimationFrame::GltfFrame { model, animation, frame } => {
                assert_eq!(*model, "walk.gltf");
                assert_eq!(animation.as_deref(), Some("walk"));
                frame
            },
            AnimationFrame::Model(_) => panic!("a glTF animation has no model frames"),
        })
        .collect();
    assert_eq!(numbers, vec![2, 3, 4]);
}

#[test]
fn model_frames_are_the_models_in_order() {
    let frames = AnimationFrames::<(), &str>::Models(vec!["a.obj", "b.obj"]);
    let models: Vec<&str> = frames
        .iter()
        .into_iter()
        .map(|frame| match frame {
            AnimationFrame::Model(model) => *model,
            AnimationFrame::GltfFrame { .. } => panic!("a list of models has no glTF frames"),
        })
        .collect();
    assert_eq!(models, vec!["a.obj", "b.obj"]);
}
