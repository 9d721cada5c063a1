//! Spritesheets: animations laid out one per row, one frame per column

use vstd::prelude::*;

verus! {

/// The dimensions of any 2D array/grid
#[derive(Debug, Clone, Copy, PartialEq, Eq, Structural)]
pub struct GridSize {
    pub rows: usize,
    pub cols: usize,
}

/// The dimensions of an image (in pixels)
#[derive(Debug, Clone, Copy, PartialEq, Eq, Structural)]
pub struct ImageSize {
    pub width: u32,
    pub height: u32,
}

/// The frames of an animation. `G` is a loaded glTF file and `M` a loaded model.
#[derive(Debug)]
pub enum AnimationFrames<G, M> {
    GltfFrames {
        /// The glTF file to load each frame from
        model: G,
        /// The name of the animation to select. Can be omitted if there is no animation in the
        /// glTF file.
        animation: Option<String>,
        /// The frame to start the animation from
        start_frame: usize,
        /// The frame to end the animation at
        end_frame: usize,
    },
    /// An array of models to render for each frame
    Models(Vec<M>),
}

impl<G, M> AnimationFrames<G, M> {
    /// The number of frames: those from the start frame to the end frame inclusive, or one per
    /// model
    pub open spec fn frame_count(self) -> int {
        match self {
            AnimationFrames::GltfFrames { start_frame, end_frame, .. } => end_frame - start_frame
                + 1,
            AnimationFrames::Models(models) => models.len() as int,
        }
    }

    /// The frame range of a glTF animation runs forward and its length fits in a `usize`
    pub open spec fn wf(self) -> bool {
        match self {
            AnimationFrames::GltfFrames { start_frame, end_frame, .. } => start_frame <= end_frame
                && end_frame - start_frame < usize::MAX,
            AnimationFrames::Models(_) => true,
        }
    }

    /// Returns the number of animation frames
    pub fn len(&self) -> (n: usize)
        requires
            self.wf(),
        ensures
            n == self.frame_count(),
    {
        match self {
            AnimationFrames::GltfFrames { start_frame, end_frame, .. } => end_frame - start_frame
                + 1,
            AnimationFrames::Models(frames) => frames.len(),
        }
    }
}

/// One frame of an animation: a frame number of a glTF animation, or a model
#[derive(Debug)]
pub enum AnimationFrame<'a, G, M> {
    GltfFrame {
        /// The glTF file to load the frame from
        model: &'a G,
        /// The name of the animation to select
        animation: &'a Option<String>,
        /// The frame of the animation
        frame: usize,
    },
    Model(&'a M),
}

impl<G, M> AnimationFrames<G, M> {
    /// Returns the frames of this animation, in order: each frame number of the glTF animation
    /// from the start frame to the end frame, or each model
    pub fn iter(&self) -> (frames: Vec<AnimationFrame<'_, G, M>>)
        requires
            self.wf(),
        ensures
            frames@.len() == self.frame_count(),
            forall|i: int|
                0 <= i < frames@.len() ==> match *self {
                    AnimationFrames::GltfFrames { model, animation, start_frame, .. } => (
                    #[trigger] frames@[i]) matches AnimationFrame::GltfFrame {
                        model: m,
                        animation: a,
                        frame: f,
                    } && *m == model && *a == animation && f == start_frame + i,
                    AnimationFrames::Models(models) => frames@[i] matches AnimationFrame::Model(m)
                        && *m == models@[i],
                },
    {
        let mut frames: Vec<AnimationFrame<'_, G, M>> = Vec::new();
        match self {
            AnimationFrames::GltfFrames { model, animation, start_frame, end_frame } => {
                let count = end_frame - start_frame + 1;
                let mut i: usize = 0;
                while i < count
                    invariant
                        count == self.frame_count(),
                        *start_frame + count - 1 == *end_frame,
                        i <= count,
                        frames@.len() == i,
                        forall|j: int|
                            0 <= j < i ==> ((#[trigger] frames@[j]) matches AnimationFrame::GltfFrame {
                                model: m,
                                animation: a,
                                frame: f,
                            } && *m == *model && *a == *animation && f == *start_frame + j),
                    decreases count - i,
                {
                    frames.push(AnimationFrame::GltfFrame { model, animation, frame: start_frame + i });
                    i += 1;
                }
            },
            AnimationFrames::Models(models) => {
                let mut i: usize = 0;
                while i < models.len()
                    invariant
                        i <= models@.len(),
                        frames@.len() == i,
                        forall|j: int|
                            0 <= j < i ==> ((#[trigger] frames@[j]) matches AnimationFrame::Model(m)
                                && *m == models@[j]),
                    decreases models.len() - i,
                {
                    frames.push(AnimationFrame::Model(&models[i]));
                    i += 1;
                }
            },
        }
        frames
    }
}

/// An animation: its frames, the size at which each frame is rendered, and the camera `C`
/// from which they are rendered
#[derive(Debug)]
pub struct Animation<G, M, C> {
    pub frames: AnimationFrames<G, M>,
    /// The width at which to render each frame (nonzero)
    pub frame_width: usize,
    /// The height at which to render each frame (nonzero)
    pub frame_height: usize,
    /// The camera perspective from which to render each frame
    pub camera: C,
}

impl<G, M, C> Animation<G, M, C> {
    /// The frame count is well defined, the frame dimensions are nonzero, and the frames side
    /// by side are no wider than a `usize` can count
    pub open spec fn wf(self) -> bool {
        &&& self.frames.wf()
        &&& self.frame_width > 0
        &&& self.frame_height > 0
        &&& self.frames.frame_count() * self.frame_width <= usize::MAX
    }

    /// The total width of the frames side by side, as a `u32` (truncated as the cast does)
    pub open spec fn spec_width(self) -> u32 {
        (self.frames.frame_count() * self.frame_width) as u32
    }

    /// Returns the total width of all the animation frames adjacent to each other
    pub fn width(&self) -> (w: u32)
        requires
            self.wf(),
        ensures
            w == self.spec_width(),
    {
        let n = self.frames.len();
        assert(n * self.frame_width <= usize::MAX);
        let total = n * self.frame_width;
        #[verifier::truncate]
        (total as u32)
    }

    /// Returns the [width, height] dimensions of each frame of this animation
    pub fn frame_size(&self) -> (size: [usize; 2])
        ensures
            size[0] == self.frame_width,
            size[1] == self.frame_height,
    {
        [self.frame_width, self.frame_height]
    }
}

/// A spritesheet: the animations to lay out (one per row), where to write the result, the
/// scale factor and the background `B`
#[derive(Debug)]
pub struct Spritesheet<G, M, C, B> {
    /// The absolute path to output the generated spritesheet
    pub path: String,
    /// Animations to include in the spritesheet
    pub animations: Vec<Animation<G, M, C>>,
    /// A scale factor to apply to the generated images. Each image is scaled without
    /// interpolation. The value must be greater than zero. (default: 1).
    pub scale: u32,
    /// The background color of the generated image
    pub background: B,
}

/// The largest frame count of the animations, or zero when there are none
pub open spec fn max_frame_count<G, M, C>(anims: Seq<Animation<G, M, C>>) -> int
    decreases anims.len(),
{
    if anims.len() == 0 {
        0
    } else {
        let rest = max_frame_count(anims.drop_last());
        let n = anims.last().frames.frame_count();
        if n > rest {
            n
        } else {
            rest
        }
    }
}

/// The largest row width of the animations, or zero when there are none
pub open spec fn max_row_width<G, M, C>(anims: Seq<Animation<G, M, C>>) -> int
    decreases anims.len(),
{
    if anims.len() == 0 {
        0
    } else {
        let rest = max_row_width(anims.drop_last());
        let w = anims.last().spec_width() as int;
        if w > rest {
            w
        } else {
            rest
        }
    }
}

/// The sum of the frame heights of the animations, each taken as a `u32` (truncated as the
/// cast does)
pub open spec fn total_row_height<G, M, C>(anims: Seq<Animation<G, M, C>>) -> int
    decreases anims.len(),
{
    if anims.len() == 0 {
        0
    } else {
        total_row_height(anims.drop_last()) + (anims.last().frame_height as u32) as int
    }
}

/// Every animation is well formed
pub open spec fn animations_wf<G, M, C>(anims: Seq<Animation<G, M, C>>) -> bool {
    forall|i: int| 0 <= i < anims.len() ==> #[trigger] anims[i].wf()
}

impl<G, M, C, B> Spritesheet<G, M, C, B> {
    /// Returns the size of the spritesheet grid: one row per animation, and as many columns as
    /// the longest animation has frames
    pub fn grid_size(&self) -> (size: GridSize)
        requires
            animations_wf(self.animations@),
        ensures
            size.rows == self.animations@.len(),
            size.cols == max_frame_count(self.animations@),
    {
        let mut cols: usize = 0;
        let mut i: usize = 0;
        while i < self.animations.len()
            invariant
                i <= self.animations.len(),
                animations_wf(self.animations@),
                cols == max_frame_count(self.animations@.take(i as int)),
            decreases self.animations.len() - i,
        {
            assert(self.animations@[i as int].wf());
            let n = self.animations[i].frames.len();
            assert(self.animations@.take(i + 1).drop_last() =~= self.animations@.take(i as int));
            if n > cols {
                cols = n;
            }
            i += 1;
        }
        assert(self.animations@.take(i as int) =~= self.animations@);
        GridSize { rows: self.animations.len(), cols }
    }

    /// Returns the size of image needed to uniformly layout a single animation per row.
    /// Does not take into account the scale factor.
    pub fn image_size(&self) -> (size: ImageSize)
        requires
            animations_wf(self.animations@),
            total_row_height(self.animations@) <= u32::MAX,
        ensures
            size.width == max_row_width(self.animations@),
            size.height == total_row_height(self.animations@),
    {
        let mut width: u32 = 0;
        let mut height: u32 = 0;
        let mut i: usize = 0;
        while i < self.animations.len()
            invariant
                i <= self.animations.len(),
                animations_wf(self.animations@),
                total_row_height(self.animations@) <= u32::MAX,
                width == max_row_width(self.animations@.take(i as int)),
                height == total_row_height(self.animations@.take(i as int)),
            decreases self.animations.len() - i,
        {
            let anim = &self.animations[i];
            assert(self.animations@[i as int].wf());
            assert(self.animations@.take(i + 1).drop_last() =~= self.animations@.take(i as int));
            proof {
                lemma_total_row_height_prefix(self.animations@, i + 1);
            }
            let w = anim.width();
            if w > width {
                width = w;
            }
            #[verifier::truncate]
            let h = anim.frame_height as u32;
            height = height + h;
            i += 1;
        }
        assert(self.animations@.take(i as int) =~= self.animations@);
        ImageSize { width, height }
    }
}

/// The rows of a prefix of the animations are no taller than all of the rows
pub proof fn lemma_total_row_height_prefix<G, M, C>(anims: Seq<Animation<G, M, C>>, n: int)
    requires
        0 <= n <= anims.len(),
    ensures
        total_row_height(anims.take(n)) <= total_row_height(anims),
    decreases anims.len() - n,
{
    if n < anims.len() {
        lemma_total_row_height_prefix(anims, n + 1);
        assert(anims.take(n + 1).drop_last() =~= anims.take(n));
    } else {
        assert(anims.take(n) =~= anims);
    }
}

/// Every animation's row fits in the spritesheet image: no row is wider than the image, and the
/// rows stacked in order, each as tall as its frames, end exactly at the bottom of the image. No
/// animation has more frames than the grid has columns.
pub proof fn lemma_rows_fit_image<G, M, C>(anims: Seq<Animation<G, M, C>>)
    ensures
        forall|i: int|
            0 <= i < anims.len() ==> {
                &&& (#[trigger] anims[i]).spec_width() <= max_row_width(anims)
                &&& anims[i].frames.frame_count() <= max_frame_count(anims)
                &&& total_row_height(anims.take(i)) + (anims[i].frame_height as u32) == total_row_height(
                    anims.take(i + 1),
                )
                &&& total_row_height(anims.take(i + 1)) <= total_row_height(anims)
            },
        total_row_height(anims.take(anims.len() as int)) == total_row_height(anims),
    decreases anims.len(),
{
    assert(anims.take(anims.len() as int) =~= anims);
    if anims.len() > 0 {
        let rest = anims.drop_last();
        lemma_rows_fit_image(rest);
        assert forall|i: int| 0 <= i < anims.len() implies {
            &&& (#[trigger] anims[i]).spec_width() <= max_row_width(anims)
            &&& anims[i].frames.frame_count() <= max_frame_count(anims)
            &&& total_row_height(anims.take(i)) + (anims[i].frame_height as u32) == total_row_height(
                anims.take(i + 1),
            )
            &&& total_row_height(anims.take(i + 1)) <= total_row_height(anims)
        } by {
            assert(anims.take(i + 1).drop_last() =~= anims.take(i));
            lemma_total_row_height_prefix(anims, i + 1);
            if i < anims.len() - 1 {
                assert(anims[i] == rest[i]);
            }
        }
    }
}

/// The sum of the frame heights of the first `a` animations: where the row of animation `a`
/// starts in the spritesheet image
pub open spec fn rows_above<G, M, C>(anims: Seq<Animation<G, M, C>>, a: int) -> int
    decreases a,
{
    if a <= 0 {
        0
    } else {
        rows_above(anims, a - 1) + anims[a - 1].frame_height
    }
}

/// Where frame `i` of animation `a` is drawn in the unscaled spritesheet image: `i` frame widths
/// from the left edge, at the top of the animation's row
pub open spec fn frame_offset<G, M, C>(anims: Seq<Animation<G, M, C>>, a: int, i: int) -> [usize; 2] {
    [(i * anims[a].frame_width) as usize, rows_above(anims, a) as usize]
}

impl<G, M, C, B> Spritesheet<G, M, C, B> {
    /// The top-left corner of every frame in the unscaled spritesheet image, by animation and by
    /// frame: each animation has a row of its own, as tall as its frames, below the rows of the
    /// animations before it, and its frames are drawn side by side from the left edge
    pub fn frame_offsets(&self) -> (offsets: Vec<Vec<[usize; 2]>>)
        requires
            animations_wf(self.animations@),
            rows_above(self.animations@, self.animations@.len() as int) <= usize::MAX,
        ensures
            offsets@.len() == self.animations@.len(),
            forall|a: int|
                0 <= a < offsets@.len() ==> (#[trigger] offsets@[a])@.len()
                    == self.animations@[a].frames.frame_count(),
            forall|a: int, i: int|
                0 <= a < offsets@.len() && 0 <= i < offsets@[a]@.len() ==> #[trigger] offsets@[a]@[i]
                    == frame_offset(self.animations@, a, i),
    {
        let ghost anims = self.animations@;
        let mut offsets: Vec<Vec<[usize; 2]>> = Vec::new();
        let mut y_offset: usize = 0;
        let mut a: usize = 0;
        while a < self.animations.len()
            invariant
                anims == self.animations@,
                animations_wf(anims),
                rows_above(anims, anims.len() as int) <= usize::MAX,
                a <= anims.len(),
                y_offset == rows_above(anims, a as int),
                offsets@.len() == a,
                forall|b: int|
                    0 <= b < a ==> (#[trigger] offsets@[b])@.len() == anims[b].frames.frame_count(),
                forall|b: int, i: int|
                    0 <= b < a && 0 <= i < offsets@[b]@.len() ==> #[trigger] offsets@[b]@[i]
                        == frame_offset(anims, b, i),
            decreases anims.len() - a,
        {
            let anim = &self.animations[a];
            assert(anims[a as int].wf());
            let n = anim.frames.len();
            let frame_width = anim.frame_width;
            let mut row: Vec<[usize; 2]> = Vec::new();
            let mut i: usize = 0;
            while i < n
                invariant
                    n == anims[a as int].frames.frame_count(),
                    frame_width == anims[a as int].frame_width,
                    n * frame_width <= usize::MAX,
                    a < anims.len(),
                    y_offset == rows_above(anims, a as int),
                    i <= n,
                    row@.len() == i,
                    forall|k: int| 0 <= k < i ==> #[trigger] row@[k] == frame_offset(anims, a as int, k),
                decreases n - i,
            {
                assert(i * frame_width <= n * frame_width) by (nonlinear_arith)
                    requires
                        i < n,
                ;
                let x_offset = i * frame_width;
                row.push([x_offset, y_offset]);
                i += 1;
            }
            offsets.push(row);
            proof {
                lemma_rows_above_monotone(anims, a as int + 1, anims.len() as int);
            }
            y_offset = y_offset + anim.frame_height;
            a += 1;
        }
        offsets
    }
}

/// The rows above a later animation are at least as tall as those above an earlier one
pub proof fn lemma_rows_above_monotone<G, M, C>(anims: Seq<Animation<G, M, C>>, a: int, b: int)
    requires
        0 <= a <= b,
    ensures
        rows_above(anims, a) <= rows_above(anims, b),
    decreases b - a,
{
    if a < b {
        lemma_rows_above_monotone(anims, a, b - 1);
    }
}

/// When no size overflows a `u32`, the rows above an animation are as tall as its total row
/// height says
proof fn lemma_rows_above_total<G, M, C>(anims: Seq<Animation<G, M, C>>, a: int)
    requires
        0 <= a <= anims.len(),
        forall|k: int| 0 <= k < anims.len() ==> (#[trigger] anims[k]).frame_height <= u32::MAX,
    ensures
        rows_above(anims, a) == total_row_height(anims.take(a)),
    decreases a,
{
    if a > 0 {
        lemma_rows_above_total(anims, a - 1);
        assert(anims.take(a).drop_last() =~= anims.take(a - 1));
        assert(anims.take(a).last() == anims[a - 1]);
    }
}

/// The sizes of the animations of a spritesheet fit in a `u32`: each row's width and height,
/// and the height of all the rows
pub open spec fn sheet_sizes_fit<G, M, C>(anims: Seq<Animation<G, M, C>>) -> bool {
    &&& animations_wf(anims)
    &&& forall|k: int|
        0 <= k < anims.len() ==> (#[trigger] anims[k]).frames.frame_count() * anims[k].frame_width
            <= u32::MAX && anims[k].frame_height <= u32::MAX
    &&& total_row_height(anims) <= u32::MAX
}

/// Where frame `i` of animation `a` lies, as its offset and the frame's width and height
proof fn lemma_frame_bounds<G, M, C>(anims: Seq<Animation<G, M, C>>, a: int, i: int)
    requires
        sheet_sizes_fit(anims),
        0 <= a < anims.len(),
        0 <= i < anims[a].frames.frame_count(),
    ensures
        frame_offset(anims, a, i)[0] == i * anims[a].frame_width,
        frame_offset(anims, a, i)[0] + anims[a].frame_width <= anims[a].spec_width(),
        anims[a].spec_width() <= max_row_width(anims),
        frame_offset(anims, a, i)[1] == rows_above(anims, a),
        rows_above(anims, a) + anims[a].frame_height == rows_above(anims, a + 1),
        rows_above(anims, a + 1) <= total_row_height(anims),
{
    let fw = anims[a].frame_width as int;
    let n = anims[a].frames.frame_count();
    assert(anims[a].wf());
    assert(n * fw <= u32::MAX);
    assert(0 <= i * fw && i * fw + fw <= n * fw) by (nonlinear_arith)
        requires
            0 <= i < n,
            fw >= 0,
    ;
    assert(anims[a].spec_width() <= max_row_width(anims)) by {
        lemma_rows_fit_image(anims);
    }
    assert(rows_above(anims, a + 1) <= total_row_height(anims)) by {
        lemma_rows_above_total(anims, a + 1);
        lemma_total_row_height_prefix(anims, a + 1);
    }
    lemma_rows_above_monotone(anims, a, a + 1);
    lemma_rows_above_monotone(anims, 0, a);
}

/// Two different frames of a spritesheet do not overlap
proof fn lemma_frames_apart<G, M, C>(anims: Seq<Animation<G, M, C>>, a: int, i: int, b: int, j: int)
    requires
        sheet_sizes_fit(anims),
        0 <= a < anims.len(),
        0 <= i < anims[a].frames.frame_count(),
        0 <= b < anims.len(),
        0 <= j < anims[b].frames.frame_count(),
        (a, i) != (b, j),
    ensures
        ({
            let o1 = frame_offset(anims, a, i);
            let o2 = frame_offset(anims, b, j);
            ||| o1[0] + anims[a].frame_width <= o2[0]
            ||| o2[0] + anims[b].frame_width <= o1[0]
            ||| o1[1] + anims[a].frame_height <= o2[1]
            ||| o2[1] + anims[b].frame_height <= o1[1]
        }),
{
    lemma_frame_bounds(anims, a, i);
    lemma_frame_bounds(anims, b, j);
    let fa = anims[a].frame_width as int;
    if a == b {
        if i < j {
            assert(i * fa + fa <= j * fa) by (nonlinear_arith)
                requires
                    i < j,
                    fa >= 0,
            ;
        } else {
            assert(j * fa + fa <= i * fa) by (nonlinear_arith)
                requires
                    j < i,
                    fa >= 0,
            ;
        }
    } else if a < b {
        lemma_rows_above_monotone(anims, a + 1, b);
    } else {
        lemma_rows_above_monotone(anims, b + 1, a);
    }
}

/// Every frame of a spritesheet lies inside the spritesheet image, and no two frames overlap
/// (when no size overflows a `u32`): frame `i` of animation `a` covers the pixels from its
/// offset to its offset plus the frame size.
pub proof fn lemma_frames_fit_and_do_not_overlap<G, M, C>(anims: Seq<Animation<G, M, C>>)
    requires
        sheet_sizes_fit(anims),
    ensures
        forall|a: int, i: int|
            0 <= a < anims.len() && 0 <= i < anims[a].frames.frame_count() ==> {
                let o = #[trigger] frame_offset(anims, a, i);
                &&& o[0] + anims[a].frame_width <= max_row_width(anims)
                &&& o[1] + anims[a].frame_height <= total_row_height(anims)
            },
        forall|a: int, i: int, b: int, j: int|
            0 <= a < anims.len() && 0 <= i < anims[a].frames.frame_count() && 0 <= b < anims.len()
                && 0 <= j < anims[b].frames.frame_count() && (a, i) != (b, j) ==> {
                let o1 = #[trigger] frame_offset(anims, a, i);
                let o2 = #[trigger] frame_offset(anims, b, j);
                ||| o1[0] + anims[a].frame_width <= o2[0]
                ||| o2[0] + anims[b].frame_width <= o1[0]
                ||| o1[1] + anims[a].frame_height <= o2[1]
                ||| o2[1] + anims[b].frame_height <= o1[1]
            },
{
    assert forall|a: int, i: int|
        0 <= a < anims.len() && 0 <= i < anims[a].frames.frame_count() implies {
            let o = #[trigger] frame_offset(anims, a, i);
            &&& o[0] + anims[a].frame_width <= max_row_width(anims)
            &&& o[1] + anims[a].frame_height <= total_row_height(anims)
        } by {
        lemma_frame_bounds(anims, a, i);
    }
    assert forall|a: int, i: int, b: int, j: int|
        0 <= a < anims.len() && 0 <= i < anims[a].frames.frame_count() && 0 <= b < anims.len()
            && 0 <= j < anims[b].frames.frame_count() && (a, i) != (b, j) implies {
            let o1 = #[trigger] frame_offset(anims, a, i);
            let o2 = #[trigger] frame_offset(anims, b, j);
            ||| o1[0] + anims[a].frame_width <= o2[0]
            ||| o2[0] + anims[b].frame_width <= o1[0]
            ||| o1[1] + anims[a].frame_height <= o2[1]
            ||| o2[1] + anims[b].frame_height <= o1[1]
        } by {
        lemma_frames_apart(anims, a, i, b, j);
    }
}

} // verus!
