//! The render tasks that the configuration asks for: a single pose, or a spritesheet with one
//! animation per row

pub mod file_cache;

use vstd::prelude::*;

use crate::renderer::layout::{
    LayoutError, cell_span_wf, centered_offset, empty_avail, grid_cells_wf, grid_header_wf, lemma_spec_grid,
    mark_used, node_wf, spec_grid, spec_layout, spec_place, LayoutOffset, LayoutView,
};
use crate::renderer::render_node::{GridLayout, GridLayoutCell, RenderLayout, RenderNode};
use crate::renderer::rendered_image::{RenderedImage, Size};
use crate::resolve_path::{path_is_absolute, resolve_path, resolved_path, PathStyle};

verus! {

/// A render tree together with the scale factor to apply to the image drawn from it
#[derive(Debug)]
pub struct RenderJob<D> {
    /// A scale factor to apply to the generated image. The image is scaled without
    /// interpolation. The value must be greater than zero.
    pub scale: u32,
    /// The root node of the tree that describes the image to render
    pub root: RenderNode<D>,
}

/// A render job and the file its image is written to
#[derive(Debug)]
pub struct Task<D> {
    /// The absolute path to output the generated file
    pub output_path: String,
    /// The job to execute that generates the final image
    pub job: RenderJob<D>,
}

/// One animation of a spritesheet: the size at which each of its frames is rendered (which the
/// empty cells that fill out its row take up too), and what to draw in each frame, in order
#[derive(Debug)]
pub struct SheetRow<D> {
    pub frame_size: Size,
    pub frames: Vec<D>,
}

/// The componentwise maximum of two sizes
pub open spec fn size_max(a: Size, b: Size) -> Size {
    Size {
        width: if a.width >= b.width {
            a.width
        } else {
            b.width
        },
        height: if a.height >= b.height {
            a.height
        } else {
            b.height
        },
    }
}

/// The componentwise maximum of `init` and the frame size of each row
pub open spec fn rows_max<D>(rows: Seq<SheetRow<D>>, init: Size) -> Size
    decreases rows.len(),
{
    if rows.len() == 0 {
        init
    } else {
        size_max(rows_max(rows.drop_last(), init), rows.last().frame_size)
    }
}

/// The size of every cell of a spritesheet: the componentwise maximum of the smallest valid
/// size and the frame size of each row
pub open spec fn sheet_cell_size<D>(rows: Seq<SheetRow<D>>) -> Size {
    rows_max(rows, Size { width: 1, height: 1 })
}

/// The number of frames of the longest row (zero when there are no rows)
pub open spec fn sheet_cols<D>(rows: Seq<SheetRow<D>>) -> int
    decreases rows.len(),
{
    if rows.len() == 0 {
        0
    } else {
        let rest = sheet_cols(rows.drop_last());
        let n = rows.last().frames@.len() as int;
        if n > rest {
            n
        } else {
            rest
        }
    }
}

/// The image of frame `c` of a spritesheet row: what to draw in that frame, rendered at the
/// row's frame size
pub open spec fn sheet_frame<D>(row: SheetRow<D>, c: int) -> RenderedImage<D> {
    RenderedImage { size: row.frame_size, data: row.frames@[c] }
}

/// The cell at column `c` of a spritesheet row with `cols` columns: the image of the frame at
/// that position, or an empty node of the row's frame size past the last frame; every cell
/// spans one column and one row
pub open spec fn sheet_cell<D>(row: SheetRow<D>, c: int) -> GridLayoutCell<D> {
    GridLayoutCell {
        node: if c < row.frames@.len() {
            RenderNode::RenderedImage(sheet_frame(row, c))
        } else {
            RenderNode::Empty { size: row.frame_size }
        },
        col_span: 1,
        row_span: 1,
    }
}

/// The spritesheet grid has one row per animation, as many columns as the longest animation has
/// frames, cells the size of the largest frame, and each animation's frames in order along its
/// row, each rendered at the animation's frame size, followed by empty cells of that size
pub open spec fn is_sheet_grid<D>(grid: GridLayout<D>, rows: Seq<SheetRow<D>>) -> bool {
    &&& grid.rows == rows.len()
    &&& grid.cols == sheet_cols(rows)
    &&& grid.cell_size == sheet_cell_size(rows)
    &&& grid.cells@.len() == rows.len()
    &&& forall|r: int|
        0 <= r < rows.len() ==> {
            &&& (#[trigger] grid.cells@[r])@.len() == grid.cols
            &&& forall|c: int|
                0 <= c < grid.cols ==> #[trigger] grid.cells@[r]@[c] == sheet_cell(rows[r], c)
        }
}

/// Lays out the animations of a spritesheet in a grid, one animation per row and one frame per
/// column, filling out the rest of each row with empty cells of the animation's frame size.
///
/// Zero-length animations are not supported: there must be at least one animation and one
/// frame.
pub fn spritesheet_layout<D>(rows: Vec<SheetRow<D>>) -> (node: RenderNode<D>)
    requires
        rows@.len() > 0,
        rows@.len() <= u32::MAX,
        0 < sheet_cols(rows@) <= u32::MAX,
    ensures
        node matches RenderNode::Layout(RenderLayout::Grid(grid)) && is_sheet_grid(grid, rows@),
{
    let ghost rows0 = rows@;

    // The number of columns and the size of each cell
    let mut cols: usize = 0;
    let mut cell_size = Size::min_value();
    let mut i: usize = 0;
    while i < rows.len()
        invariant
            rows@ == rows0,
            i <= rows.len(),
            cols == sheet_cols(rows0.take(i as int)),
            cell_size == rows_max(rows0.take(i as int), Size { width: 1, height: 1 }),
        decreases rows.len() - i,
    {
        assert(rows0.take(i + 1).drop_last() =~= rows0.take(i as int));
        let n = rows[i].frames.len();
        if n > cols {
            cols = n;
        }
        cell_size = cell_size.max(rows[i].frame_size);
        i += 1;
    }
    assert(rows0.take(i as int) =~= rows0);
    let n_rows = rows.len();

    // Flatten all of the animations into rows of cells, inserting empty cells along the way to
    // fill any gaps in the grid
    let mut cells: Vec<Vec<GridLayoutCell<D>>> = Vec::new();
    for row in row_iter: rows.into_iter()
        invariant
            row_iter.seq() == rows0,
            cells@.len() == row_iter.index(),
            cols == sheet_cols(rows0),
            forall|r: int|
                0 <= r < cells@.len() ==> {
                    &&& (#[trigger] cells@[r])@.len() == cols
                    &&& forall|c: int|
                        0 <= c < cols ==> #[trigger] cells@[r]@[c] == sheet_cell(rows0[r], c)
                },
    {
        let ghost r = row_iter.index();
        proof {
            lemma_sheet_cols_bound(rows0, r);
        }
        let SheetRow { frame_size, frames } = row;
        let n_frames = frames.len();
        let mut line: Vec<GridLayoutCell<D>> = Vec::new();
        for data in frame_iter: frames.into_iter()
            invariant
                frame_iter.seq() == rows0[r].frames@,
                rows0[r].frame_size == frame_size,
                line@.len() == frame_iter.index(),
                forall|c: int| 0 <= c < line@.len() ==> #[trigger] line@[c] == sheet_cell(rows0[r], c),
        {
            line.push(GridLayoutCell::single(RenderNode::RenderedImage(RenderedImage { size: frame_size, data })));
        }
        // Fill out the rest of the row with extra empty cells
        let extra = cols - n_frames;
        let mut k: usize = 0;
        while k < extra
            invariant
                rows0[r].frame_size == frame_size,
                n_frames == rows0[r].frames@.len(),
                n_frames <= cols,
                extra == cols - n_frames,
                k <= extra,
                line@.len() == n_frames + k,
                forall|c: int| 0 <= c < line@.len() ==> #[trigger] line@[c] == sheet_cell(rows0[r], c),
            decreases extra - k,
        {
            line.push(GridLayoutCell::single(RenderNode::Empty { size: frame_size }));
            k += 1;
        }
        cells.push(line);
    }

    #[verifier::truncate]
    let grid_rows = n_rows as u32;
    #[verifier::truncate]
    let grid_cols = cols as u32;
    let grid = GridLayout { rows: grid_rows, cols: grid_cols, cell_size, cells };
    RenderNode::Layout(RenderLayout::Grid(grid))
}

/// How far into its animation frame `step` of `steps` frames is, as the fraction
/// `numerator / denominator`: the frames are spread evenly from the start of the animation
/// (weight 0) to its end (weight 1), and a single frame shows the start.
///
/// ```text
///           | step       => weight
/// steps = 1 | 0          => 0
/// steps = 2 | 0, 1       => 0, 1
/// steps = 3 | 0, 1, 2    => 0, 1/2, 1
/// steps = 4 | 0, 1, 2, 3 => 0, 1/3, 2/3, 1
/// ```
pub fn step_weight(step: u32, steps: u32) -> (fraction: (u32, u32))
    requires
        step < steps,
    ensures
        fraction.0 == step,
        fraction.1 == if steps > 2 {
            steps - 1
        } else {
            1
        },
        0 < fraction.1,
        fraction.0 <= fraction.1,
        steps > 1 && step == steps - 1 ==> fraction.0 == fraction.1,
{
    let denominator = if steps - 1 > 1 {
        steps - 1
    } else {
        1
    };
    (step, denominator)
}

/// The task that renders a spritesheet: the animations laid out in a grid (see
/// [`spritesheet_layout`]), written to the given path resolved against the base directory
pub fn spritesheet_task<D>(
    path: &str,
    base_dir: &str,
    style: PathStyle,
    scale: u32,
    rows: Vec<SheetRow<D>>,
) -> (task: Task<D>)
    requires
        path_is_absolute(base_dir@, style),
        scale > 0,
        rows@.len() > 0,
        rows@.len() <= u32::MAX,
        0 < sheet_cols(rows@) <= u32::MAX,
    ensures
        task.output_path@ == resolved_path(path@, base_dir@, style),
        task.job.scale == scale,
        task.job.root matches RenderNode::Layout(RenderLayout::Grid(grid)) && is_sheet_grid(
            grid,
            rows@,
        ),
{
    let root = spritesheet_layout(rows);
    Task { output_path: resolve_path(path, base_dir, style), job: RenderJob { scale, root } }
}

/// The task that renders a single pose: one image, written to the given path resolved against
/// the base directory
pub fn pose_task<D>(
    path: &str,
    base_dir: &str,
    style: PathStyle,
    scale: u32,
    image: RenderedImage<D>,
) -> (task: Task<D>)
    requires
        path_is_absolute(base_dir@, style),
        scale > 0,
    ensures
        task.output_path@ == resolved_path(path@, base_dir@, style),
        task.job.scale == scale,
        task.job.root == RenderNode::RenderedImage(image),
{
    let root = RenderNode::RenderedImage(image);
    Task { output_path: resolve_path(path, base_dir, style), job: RenderJob { scale, root } }
}

/// No animation has more frames than the spritesheet has columns
pub proof fn lemma_sheet_cols_bound<D>(rows: Seq<SheetRow<D>>, r: int)
    requires
        0 <= r < rows.len(),
    ensures
        rows[r].frames@.len() <= sheet_cols(rows),
    decreases rows.len(),
{
    if r < rows.len() - 1 {
        lemma_sheet_cols_bound(rows.drop_last(), r);
    }
}


// ---------------------------------------------------------------------------------------------
// A spritesheet grid always lays out
// ---------------------------------------------------------------------------------------------

/// Every animation's frame size is a valid size
pub open spec fn sheet_sizes_wf<D>(rows: Seq<SheetRow<D>>) -> bool {
    forall|r: int| 0 <= r < rows.len() ==> (#[trigger] rows[r]).frame_size.wf()
}

/// Where the layout puts the cell at (r, c) of a spritesheet, and what it puts there: the frame
/// (or the empty node) centered in its cell
pub open spec fn sheet_target<D>(cell_size: Size, row: SheetRow<D>, r: int, c: int) -> (
    LayoutOffset,
    LayoutView<D>,
) {
    let view = if c < row.frames@.len() {
        LayoutView::RenderedImage(sheet_frame(row, c))
    } else {
        LayoutView::Empty { size: row.frame_size }
    };
    (centered_offset(cell_size, r, c, 1, 1, view.size()), view)
}

/// A spritesheet grid is well formed and always laid out: each frame of animation `r` lands in
/// the cell at row `r` and its own column, centered in the cell, and each cell past the last
/// frame of a row holds an empty node, cells listed row by row.
pub proof fn lemma_spritesheet_layout<D>(grid: GridLayout<D>, rows: Seq<SheetRow<D>>)
    requires
        is_sheet_grid(grid, rows),
        rows.len() > 0,
        sheet_cols(rows) > 0,
        sheet_sizes_wf(rows),
        grid.cell_size.width * grid.cols <= u32::MAX,
        grid.cell_size.height * grid.rows <= u32::MAX,
    ensures
        node_wf(RenderNode::Layout(RenderLayout::Grid(grid))),
        spec_grid(grid) matches Ok(LayoutView::Grid { cells, .. }) && {
            &&& cells.len() == grid.rows * grid.cols
            &&& forall|r: int, c: int|
                0 <= r < grid.rows && 0 <= c < grid.cols ==> #[trigger] cells[r * grid.cols + c]
                    == sheet_target(grid.cell_size, rows[r], r, c)
        },
{
    lemma_sheet_cell_size_bounds(rows);
    assert(grid_header_wf(grid));
    lemma_sheet_cells_wf(grid, rows, 0, 0);
    assert(empty_avail(grid.rows as int, grid.cols as int) =~~= sheet_filled(
        grid.rows as int,
        grid.cols as int,
        0,
        0,
    ));
    lemma_sheet_place(grid, rows, 0, 0, seq![]);
    lemma_spec_grid(grid);
}

/// The availability grid once every cell before (r, c), in row-major order, is occupied
pub open spec fn sheet_filled(rows: int, cols: int, r: int, c: int) -> Seq<Seq<bool>> {
    Seq::new(rows as nat, |i: int| Seq::new(cols as nat, |j: int| i < r || (i == r && j < c)))
}

/// The cell size covers every frame size, and is at least one pixel each way
pub proof fn lemma_sheet_cell_size_bounds<D>(rows: Seq<SheetRow<D>>)
    ensures
        sheet_cell_size(rows).width >= 1,
        sheet_cell_size(rows).height >= 1,
        forall|r: int|
            0 <= r < rows.len() ==> {
                &&& (#[trigger] rows[r]).frame_size.width <= sheet_cell_size(rows).width
                &&& rows[r].frame_size.height <= sheet_cell_size(rows).height
            },
{
    lemma_rows_max_bounds(rows, Size { width: 1, height: 1 });
}

proof fn lemma_rows_max_bounds<D>(rows: Seq<SheetRow<D>>, init: Size)
    ensures
        init.width <= rows_max(rows, init).width,
        init.height <= rows_max(rows, init).height,
        forall|r: int|
            0 <= r < rows.len() ==> {
                &&& (#[trigger] rows[r]).frame_size.width <= rows_max(rows, init).width
                &&& rows[r].frame_size.height <= rows_max(rows, init).height
            },
    decreases rows.len(),
{
    if rows.len() > 0 {
        let rest = rows.drop_last();
        lemma_rows_max_bounds(rest, init);
        let m = rows_max(rows, init);
        assert forall|r: int| 0 <= r < rows.len() implies {
            &&& (#[trigger] rows[r]).frame_size.width <= m.width
            &&& rows[r].frame_size.height <= m.height
        } by {
            if r < rows.len() - 1 {
                assert(rows[r] == rest[r]);
            }
        }
    }
}

/// Index arithmetic of row-major order: a cell before (r, c) has a smaller index
proof fn lemma_index_before(r1: int, c1: int, r: int, c: int, cols: int)
    requires
        0 <= r1,
        0 <= c1 < cols,
        0 <= c,
        r1 < r || (r1 == r && c1 < c),
    ensures
        r1 * cols + c1 < r * cols + c,
{
    if r1 < r {
        assert(r1 * cols + cols <= r * cols) by (nonlinear_arith)
            requires
                r1 < r,
                0 < cols,
        ;
    }
}

/// Placing the cells of a spritesheet grid from (r, c) on, with every earlier cell already
/// placed, succeeds and places every cell where `sheet_target` says
proof fn lemma_sheet_place<D>(
    grid: GridLayout<D>,
    rows: Seq<SheetRow<D>>,
    r: nat,
    c: nat,
    placed: Seq<(LayoutOffset, LayoutView<D>)>,
)
    requires
        is_sheet_grid(grid, rows),
        sheet_cols(rows) > 0,
        sheet_sizes_wf(rows),
        (r < rows.len() && c <= grid.cols) || (r == rows.len() && c == 0),
        placed.len() == r * grid.cols + c,
        forall|r1: int, c1: int|
            0 <= r1 < rows.len() && 0 <= c1 < grid.cols && (r1 < r || (r1 == r && c1 < c))
                ==> #[trigger] placed[r1 * grid.cols + c1] == sheet_target(
                grid.cell_size,
                rows[r1],
                r1,
                c1,
            ),
    ensures
        spec_place(
            grid,
            r,
            c,
            sheet_filled(grid.rows as int, grid.cols as int, r as int, c as int),
            placed,
        ) matches Ok(cells) && {
            &&& cells.len() == grid.rows * grid.cols
            &&& forall|r1: int, c1: int|
                0 <= r1 < grid.rows && 0 <= c1 < grid.cols ==> #[trigger] cells[r1 * grid.cols + c1]
                    == sheet_target(grid.cell_size, rows[r1], r1, c1)
        },
    decreases rows.len() - r, grid.cols - c,
{
    let cols = grid.cols as int;
    let avail = sheet_filled(grid.rows as int, cols, r as int, c as int);
    if r >= grid.cells@.len() {
    } else if c >= grid.cells@[r as int]@.len() {
        assert(avail =~~= sheet_filled(grid.rows as int, cols, (r + 1) as int, 0));
        assert(placed.len() == (r + 1) * cols) by (nonlinear_arith)
            requires
                placed.len() == r * cols + c,
                c == cols,
        ;
        lemma_sheet_place(grid, rows, r + 1, 0, placed);
    } else {
        let cell = grid.cells@[r as int]@[c as int];
        assert(cell == sheet_cell(rows[r as int], c as int));
        let target = sheet_target(grid.cell_size, rows[r as int], r as int, c as int);
        let view = target.1;
        assert(spec_layout(cell.node) == Ok::<LayoutView<D>, LayoutError>(view));
        lemma_sheet_cell_size_bounds(rows);
        assert(view.size().width <= grid.cell_size.width * 1);
        assert(view.size().height <= grid.cell_size.height * 1);
        let next_avail = mark_used(avail, r as int, c as int, 1, 1);
        assert(next_avail =~~= sheet_filled(grid.rows as int, cols, r as int, (c + 1) as int));
        let next = placed.push(target);
        assert forall|r1: int, c1: int|
            0 <= r1 < rows.len() && 0 <= c1 < grid.cols && (r1 < r || (r1 == r && c1 < c + 1))
                implies #[trigger] next[r1 * grid.cols + c1] == sheet_target(
                grid.cell_size,
                rows[r1],
                r1,
                c1,
            ) by {
            if r1 < r || (r1 == r && c1 < c) {
                lemma_index_before(r1, c1, r as int, c as int, cols);
            }
        }
        lemma_sheet_place(grid, rows, r, c + 1, next);
    }
}

/// Every cell of a spritesheet grid from (r, c) on is well formed
proof fn lemma_sheet_cells_wf<D>(grid: GridLayout<D>, rows: Seq<SheetRow<D>>, r: nat, c: nat)
    requires
        is_sheet_grid(grid, rows),
        sheet_sizes_wf(rows),
        grid.cell_size.width >= 1,
        grid.cell_size.height >= 1,
        grid.cell_size.width * grid.cols <= u32::MAX,
        grid.cell_size.height * grid.rows <= u32::MAX,
        r <= rows.len(),
        r < rows.len() ==> c <= grid.cols,
    ensures
        grid_cells_wf(grid, r, c),
    decreases rows.len() - r, grid.cols - c,
{
    if r >= grid.cells@.len() {
    } else if c >= grid.cells@[r as int]@.len() {
        lemma_sheet_cells_wf(grid, rows, r + 1, 0);
    } else {
        let cell = grid.cells@[r as int]@[c as int];
        assert(cell == sheet_cell(rows[r as int], c as int));
        assert(grid.cell_size.width * 1 <= grid.cell_size.width * grid.cols) by (nonlinear_arith)
            requires
                1 <= grid.cols,
        ;
        assert(grid.cell_size.height * 1 <= grid.cell_size.height * grid.rows) by (nonlinear_arith)
            requires
                1 <= grid.rows,
        ;
        assert(cell_span_wf(grid, r as int, c as int));
        assert(rows[r as int].frame_size.wf());
        assert(node_wf(cell.node));
        lemma_sheet_cells_wf(grid, rows, r, c + 1);
    }
}

} // verus!
