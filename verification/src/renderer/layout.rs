pub mod grid;

use vstd::prelude::*;

use super::rendered_image::{RenderedImage, Size};
use super::render_node::{GridLayout, RenderLayout, RenderNode};
use grid::Grid;

verus! {

/// Why a render tree could not be laid out
#[derive(Debug, Clone, Copy, PartialEq, Eq, Structural)]
pub enum LayoutError {
    /// The layout nodes span an area larger than the specified grid
    /// Number of rows/cols required surpasses the amount making up the grid
    InsufficientGridSize { row: usize, col: usize },
    /// The node spanned an area that did not (entirely) fit in its designated cell(s)
    LayoutNodeDoesNotFit,
}

/// The offset in the image to draw at
#[derive(Debug, Clone, Copy, PartialEq, Eq, Structural)]
pub struct LayoutOffset {
    pub x: u32,
    pub y: u32,
}

impl Default for LayoutOffset {
    fn default() -> (offset: Self)
        ensures
            offset.x == 0,
            offset.y == 0,
    {
        LayoutOffset { x: 0, y: 0 }
    }
}

/// The mathematical content of a computed layout: every node with the offset at which it
/// is drawn, nested grids included.
pub enum LayoutView<D> {
    RenderedImage(RenderedImage<D>),
    Grid { cells: Seq<(LayoutOffset, LayoutView<D>)>, cell_size: Size, rows: u32, cols: u32 },
    Empty { size: Size },
}

impl<D> LayoutView<D> {
    /// The size of the image that this layout draws
    pub open spec fn size(self) -> Size {
        match self {
            LayoutView::RenderedImage(image) => image.size,
            LayoutView::Grid { cell_size, rows, cols, .. } => Size {
                width: (cell_size.width * cols) as u32,
                height: (cell_size.height * rows) as u32,
            },
            LayoutView::Empty { size } => size,
        }
    }
}

/// A computed layout node: an image, a grid of placed nodes, or an empty slot
#[derive(Debug)]
pub enum LayoutNode<D> {
    RenderedImage(RenderedImage<D>),
    Grid(Grid<D>),
    /// An empty slot, used to create a gap/empty cell in the layout
    Empty { size: Size },
}

impl<D> LayoutNode<D> {
    /// The layout that this node describes
    pub closed spec fn view(self) -> LayoutView<D>
        decreases self, 0nat,
    {
        match self {
            LayoutNode::RenderedImage(image) => LayoutView::RenderedImage(image),
            LayoutNode::Grid(grid) => grid.view_grid(),
            LayoutNode::Empty { size } => LayoutView::Empty { size },
        }
    }
}

impl<D> LayoutNode<D> {
    /// Computes the layout described by a render tree
    pub fn from_render_node(node: RenderNode<D>) -> (res: Result<Self, LayoutError>)
        requires
            node_wf(node),
        ensures
            match res {
                Ok(n) => spec_layout(node) == Ok::<LayoutView<D>, LayoutError>(n.view()),
                Err(e) => spec_layout(node) == Err::<LayoutView<D>, LayoutError>(e),
            },
        decreases node,
    {
        match node {
            RenderNode::RenderedImage(image) => Ok(LayoutNode::RenderedImage(image)),
            RenderNode::Layout(RenderLayout::Grid(grid)) => {
                match Grid::from_grid_layout(grid) {
                    Ok(grid) => Ok(LayoutNode::Grid(grid)),
                    Err(e) => Err(e),
                }
            },
            RenderNode::Empty { size } => Ok(LayoutNode::Empty { size }),
        }
    }

    /// The targets to draw for this node: the nodes of a grid with their offsets, or else the
    /// node itself at offset zero (it takes up all the space given to it)
    pub fn iter_targets(self) -> (targets: Vec<(LayoutOffset, LayoutNode<D>)>)
        ensures
            match self.view() {
                LayoutView::Grid { cells, .. } => {
                    &&& targets@.len() == cells.len()
                    &&& forall|i: int|
                        0 <= i < targets@.len() ==> (#[trigger] targets@[i].0, targets@[i].1.view())
                            == cells[i]
                },
                _ => targets@ == seq![(LayoutOffset { x: 0, y: 0 }, self)],
            },
    {
        match self {
            LayoutNode::Grid(grid) => grid.iter_targets(),
            _ => {
                let mut targets = Vec::new();
                targets.push((LayoutOffset::default(), self));
                targets
            },
        }
    }

    /// The size of the image drawn for this node
    pub fn size(&self) -> (s: Size)
        ensures
            s == self.view().size(),
    {
        match self {
            LayoutNode::RenderedImage(image) => image.size,
            LayoutNode::Grid(grid) => grid.size(),
            LayoutNode::Empty { size } => *size,
        }
    }

    /// The images to draw for this node, each with the offset (from this node's top-left
    /// corner) at which it is drawn: the image itself, the images of every node of a grid in
    /// order (nested grids included), or nothing for an empty slot. Every image lies inside this
    /// node's pixels.
    pub fn into_draw_list(self) -> (list: Vec<(LayoutOffset, RenderedImage<D>)>)
        ensures
            list@ == draw_list(self.view()),
            forall|i: int|
                0 <= i < list@.len() ==> pixels_inside(
                    (#[trigger] list@[i]).0,
                    list@[i].1.size,
                    self.view().size().width as int,
                    self.view().size().height as int,
                ),
            draw_list_disjoint(list@),
        decreases self.view(),
    {
        let ghost view = self.view();
        let mut list: Vec<(LayoutOffset, RenderedImage<D>)> = Vec::new();
        match self {
            LayoutNode::RenderedImage(image) => {
                list.push((LayoutOffset::default(), image));
                assert(list@ =~= draw_list(view));
            },
            LayoutNode::Empty { .. } => {
                assert(list@ =~= draw_list(view));
            },
            LayoutNode::Grid(grid) => {
                let targets = grid.iter_targets();
                let ghost cells = view->Grid_cells;
                let ghost width = view.size().width as int;
                let ghost height = view.size().height as int;
                let ghost mut origin: Seq<int> = Seq::empty();
                assert(width == view->Grid_cell_size.width * view->Grid_cols);
                assert(height == view->Grid_cell_size.height * view->Grid_rows);
                for target in target_iter: targets.into_iter()
                    invariant
                        view == self.view(),
                        view is Grid,
                        cells == view->Grid_cells,
                        width == view->Grid_cell_size.width * view->Grid_cols,
                        height == view->Grid_cell_size.height * view->Grid_rows,
                        width <= u32::MAX,
                        height <= u32::MAX,
                        grid_nodes_laws(cells, view->Grid_cell_size, view->Grid_rows, view->Grid_cols),
                        target_iter.seq().len() == cells.len(),
                        forall|k: int|
                            0 <= k < cells.len() ==> (#[trigger] target_iter.seq()[k].0, target_iter.seq()[k].1.view())
                                == cells[k],
                        list@ == cells_draw_list(cells, target_iter.index() as nat),
                        forall|i: int|
                            0 <= i < list@.len() ==> pixels_inside(
                                (#[trigger] list@[i]).0,
                                list@[i].1.size,
                                width,
                                height,
                            ),
                        origin.len() == list@.len(),
                        forall|i: int|
                            0 <= i < list@.len() ==> 0 <= #[trigger] origin[i] < target_iter.index()
                                && pixels_within(
                                list@[i].0,
                                list@[i].1.size,
                                cells[origin[i]].0,
                                cells[origin[i]].1.size(),
                            ),
                        draw_list_disjoint(list@),
                {
                    let ghost k = target_iter.index();
                    let (offset, node) = target;
                    assert((offset, node.view()) == cells[k]);
                    assert(pixels_inside(cells[k].0, cells[k].1.size(), width, height));
                    proof {
                        assert(decreases_to!(view => view->Grid_cells));
                        assert(decreases_to!(view->Grid_cells => cells[k]));
                        assert(decreases_to!(cells[k] => cells[k].1));
                        assert(decreases_to!(view => node.view()));
                    }
                    let ghost node_view = node.view();
                    let sub = node.into_draw_list();
                    let ghost before = list@;
                    for entry in entry_iter: sub.into_iter()
                        invariant
                            0 <= k < cells.len(),
                            entry_iter.seq() == draw_list(node_view),
                            offset == cells[k].0,
                            node_view == cells[k].1,
                            offset.x + node_view.size().width <= width,
                            offset.y + node_view.size().height <= height,
                            width <= u32::MAX,
                            height <= u32::MAX,
                            forall|i: int|
                                0 <= i < entry_iter.seq().len() ==> pixels_inside(
                                    (#[trigger] entry_iter.seq()[i]).0,
                                    entry_iter.seq()[i].1.size,
                                    node_view.size().width as int,
                                    node_view.size().height as int,
                                ),
                            list@ == before + shift_draw_list(draw_list(node_view), offset).take(
                                entry_iter.index() as int,
                            ),
                            forall|i: int|
                                0 <= i < list@.len() ==> pixels_inside(
                                    (#[trigger] list@[i]).0,
                                    list@[i].1.size,
                                    width,
                                    height,
                                ),
                            draw_list_disjoint(entry_iter.seq()),
                            forall|a: int, b: int|
                                0 <= a < cells.len() && 0 <= b < cells.len() && a != b ==> pixels_disjoint(
                                    (#[trigger] cells[a]).0,
                                    cells[a].1.size(),
                                    (#[trigger] cells[b]).0,
                                    cells[b].1.size(),
                                ),
                            origin.len() == list@.len(),
                            before.len() <= list@.len(),
                            forall|i: int|
                                0 <= i < before.len() ==> 0 <= #[trigger] origin[i] < k && pixels_within(
                                    list@[i].0,
                                    list@[i].1.size,
                                    cells[origin[i]].0,
                                    cells[origin[i]].1.size(),
                                ),
                            forall|i: int|
                                before.len() <= i < list@.len() ==> #[trigger] origin[i] == k
                                    && pixels_within(list@[i].0, list@[i].1.size, offset, node_view.size()),
                            draw_list_disjoint(list@),
                    {
                        let ghost e = entry_iter.index();
                        let ghost old_list = list@;
                        let ghost subs = entry_iter.seq();
                        let (at, image) = entry;
                        assert(pixels_inside(at, image.size, node_view.size().width as int, node_view.size().height as int));
                        let shifted = LayoutOffset { x: offset.x + at.x, y: offset.y + at.y };
                        list.push((shifted, image));
                        proof {
                            origin = origin.push(k as int);
                            assert(shift_draw_list(draw_list(node_view), offset).take(e + 1) =~= shift_draw_list(
                                draw_list(node_view),
                                offset,
                            ).take(e as int).push((shifted, image)));
                            assert forall|i: int, j: int| 0 <= i < j < list@.len() implies pixels_disjoint(
                                (#[trigger] list@[i]).0,
                                list@[i].1.size,
                                (#[trigger] list@[j]).0,
                                list@[j].1.size,
                            ) by {
                                if j < old_list.len() {
                                    assert(list@[i] == old_list[i] && list@[j] == old_list[j]);
                                } else if i < before.len() {
                                    assert(list@[i] == old_list[i]);
                                    assert(pixels_disjoint(cells[origin[i]].0, cells[origin[i]].1.size(), cells[k].0, cells[k].1.size()));
                                } else {
                                    let a = i - before.len();
                                    assert(list@[i] == old_list[i]);
                                    assert(old_list[i] == shift_draw_list(draw_list(node_view), offset)[a]);
                                    assert(pixels_inside(subs[a].0, subs[a].1.size, node_view.size().width as int, node_view.size().height as int));
                                    assert(pixels_disjoint(subs[a].0, subs[a].1.size, subs[e as int].0, subs[e as int].1.size));
                                }
                            }
                        }
                    }
                    assert(shift_draw_list(draw_list(node_view), offset).take(
                        draw_list(node_view).len() as int,
                    ) =~= shift_draw_list(draw_list(node_view), offset));
                    assert(cells_draw_list(cells, (k + 1) as nat) == cells_draw_list(cells, k as nat)
                        + shift_draw_list(draw_list(cells[k].1), cells[k].0));
                }
            },
        }
        list
    }
}

// ---------------------------------------------------------------------------------------------
// What is drawn for a layout
// ---------------------------------------------------------------------------------------------

/// The pixel rectangle of a drawn image lies within that of a node placed at `outer`
pub open spec fn pixels_within(o: LayoutOffset, s: Size, outer: LayoutOffset, outer_size: Size) -> bool {
    &&& outer.x <= o.x
    &&& o.x + s.width <= outer.x + outer_size.width
    &&& outer.y <= o.y
    &&& o.y + s.height <= outer.y + outer_size.height
}

/// No two images of a draw list overlap
pub open spec fn draw_list_disjoint<D>(list: Seq<(LayoutOffset, RenderedImage<D>)>) -> bool {
    forall|i: int, j: int|
        0 <= i < j < list.len() ==> pixels_disjoint(
            (#[trigger] list[i]).0,
            list[i].1.size,
            (#[trigger] list[j]).0,
            list[j].1.size,
        )
}

/// The draw list with every offset moved by `by`
pub open spec fn shift_draw_list<D>(list: Seq<(LayoutOffset, RenderedImage<D>)>, by: LayoutOffset) -> Seq<
    (LayoutOffset, RenderedImage<D>),
> {
    list.map_values(
        |entry: (LayoutOffset, RenderedImage<D>)|
            (LayoutOffset { x: (entry.0.x + by.x) as u32, y: (entry.0.y + by.y) as u32 }, entry.1),
    )
}

/// The images drawn for a layout, each with its offset from the layout's top-left corner: an
/// image is drawn at offset zero, an empty slot draws nothing, and a grid draws what each of its
/// nodes draws, in order, moved to the node's offset
pub open spec fn draw_list<D>(view: LayoutView<D>) -> Seq<(LayoutOffset, RenderedImage<D>)>
    decreases view, 0nat,
{
    match view {
        LayoutView::RenderedImage(image) => seq![(LayoutOffset { x: 0, y: 0 }, image)],
        LayoutView::Grid { cells, .. } => cells_draw_list(cells, cells.len()),
        LayoutView::Empty { .. } => seq![],
    }
}

/// What the first `n` nodes of a grid draw, in order, each moved to the node's offset
pub open spec fn cells_draw_list<D>(cells: Seq<(LayoutOffset, LayoutView<D>)>, n: nat) -> Seq<
    (LayoutOffset, RenderedImage<D>),
>
    decreases cells, n,
{
    if n == 0 || n > cells.len() {
        seq![]
    } else {
        proof {
            assert(decreases_to!(cells => cells[n - 1]));
            assert(decreases_to!(cells[n - 1] => cells[n - 1].1));
        }
        cells_draw_list(cells, (n - 1) as nat) + shift_draw_list(
            draw_list(cells[n - 1].1),
            cells[n - 1].0,
        )
    }
}

// ---------------------------------------------------------------------------------------------
// Grid placement, as a specification
//
// Cells of the availability grid are `true` when some node occupies them. The cells of a grid
// layout are placed one by one in row-major order: each node is laid out itself, checked to fit
// in the pixel area of its span, and then put into the first free region of its span that starts
// in its own row at or after its own column.
// ---------------------------------------------------------------------------------------------

/// A `rows` by `cols` availability grid with every cell free
pub open spec fn empty_avail(rows: int, cols: int) -> Seq<Seq<bool>> {
    Seq::new(rows as nat, |r: int| Seq::new(cols as nat, |c: int| false))
}

/// Whether every cell of the `rs` by `cs` region with top-left corner (row, col) is free
pub open spec fn region_open(avail: Seq<Seq<bool>>, row: int, col: int, rs: int, cs: int) -> bool {
    forall|r: int, c: int| row <= r < row + rs && col <= c < col + cs ==> !#[trigger] avail[r][c]
}

/// The availability grid after occupying the `rs` by `cs` region with top-left corner (row, col)
pub open spec fn mark_used(avail: Seq<Seq<bool>>, row: int, col: int, rs: int, cs: int) -> Seq<
    Seq<bool>,
> {
    Seq::new(
        avail.len(),
        |r: int|
            Seq::new(
                avail[r].len(),
                |c: int| avail[r][c] || (row <= r < row + rs && col <= c < col + cs),
            ),
    )
}

/// The first column at or after `col` where a free `rs` by `cs` region starting in `row` fits
/// within `cols` columns
pub open spec fn first_fit(avail: Seq<Seq<bool>>, row: int, col: int, rs: int, cs: int, cols: int) -> Option<
    int,
>
    decreases cols - col,
{
    if col < 0 || col + cs > cols {
        None
    } else if region_open(avail, row, col, rs, cs) {
        Some(col)
    } else {
        first_fit(avail, row, col + 1, rs, cs, cols)
    }
}

/// A column found by `first_fit` starts a free region that lies within the line, at or after
/// the starting column, and no earlier column from the start on has room
pub proof fn lemma_first_fit(avail: Seq<Seq<bool>>, row: int, col: int, rs: int, cs: int, cols: int)
    requires
        0 <= col,
    ensures
        first_fit(avail, row, col, rs, cs, cols) matches Some(c) ==> {
            &&& col <= c
            &&& 0 <= c
            &&& c + cs <= cols
            &&& region_open(avail, row, c, rs, cs)
            &&& forall|k: int| col <= k < c ==> !region_open(avail, row, k, rs, cs)
        },
        first_fit(avail, row, col, rs, cs, cols) is None ==> forall|k: int|
            col <= k && k + cs <= cols ==> !region_open(avail, row, k, rs, cs),
    decreases cols - col,
{
    if col < 0 || col + cs > cols {
    } else if region_open(avail, row, col, rs, cs) {
    } else {
        lemma_first_fit(avail, row, col + 1, rs, cs, cols);
    }
}

/// The column of the region chosen for a node spanning `rs` rows and `cs` columns whose cell is
/// at (row, start_col), or `None` when the grid has no room for it
pub open spec fn find_region(
    avail: Seq<Seq<bool>>,
    rows: int,
    cols: int,
    row: int,
    start_col: int,
    rs: int,
    cs: int,
) -> Option<int> {
    if row + rs > rows || start_col + cs > cols {
        None
    } else {
        first_fit(avail, row, start_col, rs, cs, cols)
    }
}

/// The region chosen for a node whose cell is at (row, start_col) starts in that row, at the
/// first column at or after `start_col` (never before it) where the node's whole span is free
/// and within the grid: no column from `start_col` up to the chosen one has room. When no
/// region is chosen, the span runs past the last row, or no column at or after `start_col` has
/// room for it within the grid.
pub proof fn lemma_find_region(
    avail: Seq<Seq<bool>>,
    rows: int,
    cols: int,
    row: int,
    start_col: int,
    rs: int,
    cs: int,
)
    requires
        0 <= start_col,
    ensures
        find_region(avail, rows, cols, row, start_col, rs, cs) matches Some(k) ==> {
            &&& start_col <= k
            &&& k + cs <= cols
            &&& row + rs <= rows
            &&& region_open(avail, row, k, rs, cs)
            &&& forall|j: int| start_col <= j < k ==> !region_open(avail, row, j, rs, cs)
        },
        find_region(avail, rows, cols, row, start_col, rs, cs) is None ==> {
            ||| row + rs > rows
            ||| forall|j: int| start_col <= j && j + cs <= cols ==> !region_open(avail, row, j, rs, cs)
        },
{
    lemma_first_fit(avail, row, start_col, rs, cs, cols);
}

/// The offset that centers a node of the given size in the `rs` by `cs` region of cells of
/// size `cell_size` whose top-left cell is at (row, col)
pub open spec fn centered_offset(cell_size: Size, row: int, col: int, rs: int, cs: int, size: Size) -> LayoutOffset {
    LayoutOffset {
        x: (col * cell_size.width + ((cell_size.width * cs) / 2 - size.width / 2)) as u32,
        y: (row * cell_size.height + ((cell_size.height * rs) / 2 - size.height / 2)) as u32,
    }
}

/// The layout computed from a render tree, or the first error met while computing it
pub open spec fn spec_layout<D>(node: RenderNode<D>) -> Result<LayoutView<D>, LayoutError>
    decreases node, 0nat, 0nat,
{
    match node {
        RenderNode::RenderedImage(image) => Ok(LayoutView::RenderedImage(image)),
        RenderNode::Layout(RenderLayout::Grid(grid)) => {
            if grid.cells@.len() > grid.rows {
                Err(LayoutError::InsufficientGridSize { row: grid.rows as usize, col: grid.cols as usize })
            } else {
                match spec_place(grid, 0, 0, empty_avail(grid.rows as int, grid.cols as int), seq![]) {
                    Ok(cells) => Ok(
                        LayoutView::Grid {
                            cells,
                            cell_size: grid.cell_size,
                            rows: grid.rows,
                            cols: grid.cols,
                        },
                    ),
                    Err(e) => Err(e),
                }
            }
        },
        RenderNode::Empty { size } => Ok(LayoutView::Empty { size }),
    }
}

/// Places the cells of `grid` from row `r`, column `c` on, given the cells already placed
/// (`placed`) and the occupied cells (`avail`)
pub open spec fn spec_place<D>(
    grid: GridLayout<D>,
    r: nat,
    c: nat,
    avail: Seq<Seq<bool>>,
    placed: Seq<(LayoutOffset, LayoutView<D>)>,
) -> Result<Seq<(LayoutOffset, LayoutView<D>)>, LayoutError>
    decreases grid, grid.cells@.len() - r, grid.cells@[r as int]@.len() - c,
{
    if r >= grid.cells@.len() {
        Ok(placed)
    } else if c >= grid.cells@[r as int]@.len() {
        spec_place(grid, r + 1, 0, avail, placed)
    } else {
        let cell = grid.cells@[r as int]@[c as int];
        proof {
            assert(decreases_to!(grid => grid.cells));
            assert(decreases_to!(grid.cells => grid.cells@));
            assert(decreases_to!(grid.cells@ => grid.cells@[r as int]));
            assert(decreases_to!(grid.cells@[r as int] => grid.cells@[r as int]@));
            assert(decreases_to!(grid.cells@[r as int]@ => cell));
            assert(decreases_to!(cell => cell.node));
        }
        match spec_layout(cell.node) {
            Err(e) => Err(e),
            Ok(view) => {
                let size = view.size();
                let cs = cell.col_span as int;
                let rs = cell.row_span as int;
                if size.width > grid.cell_size.width * cs || size.height > grid.cell_size.height * rs {
                    Err(LayoutError::LayoutNodeDoesNotFit)
                } else {
                    match find_region(avail, grid.rows as int, grid.cols as int, r as int, c as int, rs, cs) {
                        None => Err(
                            LayoutError::InsufficientGridSize {
                                row: grid.rows as usize,
                                col: grid.cols as usize,
                            },
                        ),
                        Some(col) => spec_place(
                            grid,
                            r,
                            c + 1,
                            mark_used(avail, r as int, col, rs, cs),
                            placed.push(
                                (centered_offset(grid.cell_size, r as int, col, rs, cs, size), view),
                            ),
                        ),
                    }
                }
            },
        }
    }
}

/// Whether a render tree can be laid out without arithmetic overflow (see [`node_wf`])
pub fn is_layout_wf<D>(node: &RenderNode<D>) -> (wf: bool)
    ensures
        wf == node_wf(*node),
    decreases node,
{
    match node {
        RenderNode::RenderedImage(image) => image.size.width > 0 && image.size.height > 0,
        RenderNode::Empty { size } => size.width > 0 && size.height > 0,
        RenderNode::Layout(RenderLayout::Grid(grid)) => {
            let header = grid.rows > 0 && grid.cols > 0 && grid.cell_size.width > 0
                && grid.cell_size.height > 0 && grid.cell_size.width.checked_mul(grid.cols).is_some()
                && grid.cell_size.height.checked_mul(grid.rows).is_some();
            if !header {
                return false;
            }
            let ghost g = *grid;
            let mut r: usize = 0;
            while r < grid.cells.len()
                invariant
                    g == *grid,
                    *node == RenderNode::Layout(RenderLayout::Grid(g)),
                    r <= g.cells@.len(),
                    grid_cells_wf(g, 0, 0) == grid_cells_wf(g, r as nat, 0),
                decreases g.cells@.len() - r,
            {
                let row = &grid.cells[r];
                let mut c: usize = 0;
                while c < row.len()
                    invariant
                        g == *grid,
                        *node == RenderNode::Layout(RenderLayout::Grid(g)),
                        r < g.cells@.len(),
                        *row == g.cells@[r as int],
                        c <= row@.len(),
                        grid_cells_wf(g, 0, 0) == grid_cells_wf(g, r as nat, c as nat),
                    decreases row@.len() - c,
                {
                    let cell = &row[c];
                    proof {
                        assert(decreases_to!(*node => node->Layout_0));
                        assert(node->Layout_0 == RenderLayout::Grid(g));
                        assert(decreases_to!(node->Layout_0 => node->Layout_0->Grid_0));
                        assert(decreases_to!(node->Layout_0 => g));
                        assert(decreases_to!(g => g.cells));
                        assert(decreases_to!(g.cells => g.cells@));
                        assert(decreases_to!(g.cells@ => g.cells@[r as int]));
                        assert(decreases_to!(g.cells@[r as int] => g.cells@[r as int]@));
                        assert(decreases_to!(g.cells@[r as int]@ => *cell));
                        assert(decreases_to!(*cell => cell.node));
                    }
                    let span_ok = cell.col_span > 0 && cell.row_span > 0
                        && grid.cell_size.width.checked_mul(cell.col_span).is_some()
                        && grid.cell_size.height.checked_mul(cell.row_span).is_some()
                        && cell.row_span as usize <= usize::MAX - r
                        && cell.col_span as usize <= usize::MAX - c;
                    if !span_ok || !is_layout_wf(&cell.node) {
                        return false;
                    }
                    c += 1;
                }
                r += 1;
            }
            true
        },
    }
}

/// Whether a render tree can be laid out without arithmetic overflow: every size and span is
/// nonzero and every pixel extent of a grid or of a cell span fits in a `u32`
pub open spec fn node_wf<D>(node: RenderNode<D>) -> bool
    decreases node, 0nat, 0nat,
{
    match node {
        RenderNode::RenderedImage(image) => image.size.wf(),
        RenderNode::Layout(RenderLayout::Grid(grid)) => grid_header_wf(grid) && grid_cells_wf(grid, 0, 0),
        RenderNode::Empty { size } => size.wf(),
    }
}

/// The dimensions of a grid are nonzero and its pixel size fits in a `u32`
pub open spec fn grid_header_wf<D>(grid: GridLayout<D>) -> bool {
    &&& grid.rows > 0
    &&& grid.cols > 0
    &&& grid.cell_size.wf()
    &&& grid.cell_size.width * grid.cols <= u32::MAX
    &&& grid.cell_size.height * grid.rows <= u32::MAX
}

/// The cell at (r, c) of a grid has nonzero spans whose pixel extent fits in a `u32`
pub open spec fn cell_span_wf<D>(grid: GridLayout<D>, r: int, c: int) -> bool {
    let cell = grid.cells@[r]@[c];
    &&& cell.col_span > 0
    &&& cell.row_span > 0
    &&& grid.cell_size.width * cell.col_span <= u32::MAX
    &&& grid.cell_size.height * cell.row_span <= u32::MAX
    &&& r + cell.row_span <= usize::MAX
    &&& c + cell.col_span <= usize::MAX
}

/// Every cell of `grid` from row `r`, column `c` on is well formed
pub open spec fn grid_cells_wf<D>(grid: GridLayout<D>, r: nat, c: nat) -> bool
    decreases grid, grid.cells@.len() - r, grid.cells@[r as int]@.len() - c,
{
    if r >= grid.cells@.len() {
        true
    } else if c >= grid.cells@[r as int]@.len() {
        grid_cells_wf(grid, r + 1, 0)
    } else {
        let cell = grid.cells@[r as int]@[c as int];
        proof {
            assert(decreases_to!(grid => grid.cells));
            assert(decreases_to!(grid.cells => grid.cells@));
            assert(decreases_to!(grid.cells@ => grid.cells@[r as int]));
            assert(decreases_to!(grid.cells@[r as int] => grid.cells@[r as int]@));
            assert(decreases_to!(grid.cells@[r as int]@ => cell));
            assert(decreases_to!(cell => cell.node));
        }
        cell_span_wf(grid, r as int, c as int) && node_wf(cell.node) && grid_cells_wf(grid, r, c + 1)
    }
}

/// The layout computed from a grid layout, or the first error met while computing it
pub open spec fn spec_grid<D>(grid: GridLayout<D>) -> Result<LayoutView<D>, LayoutError> {
    spec_layout(RenderNode::Layout(RenderLayout::Grid(grid)))
}

/// A grid with more rows of cells than it has rows does not fit; any other grid is laid out by
/// placing its cells, starting from an empty availability grid
pub proof fn lemma_spec_grid<D>(grid: GridLayout<D>)
    ensures
        spec_grid(grid) == if grid.cells@.len() > grid.rows {
            Err(LayoutError::InsufficientGridSize { row: grid.rows as usize, col: grid.cols as usize })
        } else {
            match spec_place(grid, 0, 0, empty_avail(grid.rows as int, grid.cols as int), seq![]) {
                Ok(cells) => Ok(
                    LayoutView::Grid {
                        cells,
                        cell_size: grid.cell_size,
                        rows: grid.rows,
                        cols: grid.cols,
                    },
                ),
                Err(e) => Err(e),
            }
        },
{
    reveal_with_fuel(spec_layout, 2);
}

/// When placing the cells of a grid that has no more rows of cells than it has rows fails,
/// laying out the grid fails with the same error
pub proof fn lemma_spec_grid_err<D>(grid: GridLayout<D>, e: LayoutError)
    requires
        grid.cells@.len() <= grid.rows,
        spec_place(grid, 0, 0, empty_avail(grid.rows as int, grid.cols as int), seq![]) == Err::<Seq<(LayoutOffset, LayoutView<D>)>, LayoutError>(e),
    ensures
        spec_grid(grid) == Err::<LayoutView<D>, LayoutError>(e),
{
    lemma_spec_grid(grid);
}

// ---------------------------------------------------------------------------------------------
// Laws of grid layout
// ---------------------------------------------------------------------------------------------

/// Two regions of cells, each given as (row, col, row span, col span), share no cell
pub open spec fn regions_disjoint(a: (int, int, int, int), b: (int, int, int, int)) -> bool {
    ||| a.1 + a.3 <= b.1
    ||| b.1 + b.3 <= a.1
    ||| a.0 + a.2 <= b.0
    ||| b.0 + b.2 <= a.0
}

/// The pixel rectangles of two drawn nodes do not overlap
pub open spec fn pixels_disjoint(o1: LayoutOffset, s1: Size, o2: LayoutOffset, s2: Size) -> bool {
    ||| o1.x + s1.width <= o2.x
    ||| o2.x + s2.width <= o1.x
    ||| o1.y + s1.height <= o2.y
    ||| o2.y + s2.height <= o1.y
}

/// A node of width `w` that fits in a `cs`-cell span of cells of width `cw`, centered in the
/// span starting at cell `col` of a `cols`-cell line, ends within the line
pub(crate) proof fn lemma_centered_fits(cw: int, cols: int, col: int, cs: int, w: int)
    requires
        cw > 0,
        cs > 0,
        0 <= w <= cw * cs,
        0 <= col,
        col + cs <= cols,
    ensures
        w / 2 <= (cw * cs) / 2,
        col * cw + ((cw * cs) / 2 - w / 2) + w <= (col + cs) * cw,
        (col + cs) * cw <= cols * cw,
        col * cw <= cols * cw,
        cols * cw == cw * cols,
        col * cw >= 0,
{
    assert(cols * cw == cw * cols) by (nonlinear_arith);
    assert(col * cw >= 0) by (nonlinear_arith)
        requires
            col >= 0,
            cw > 0,
    ;
    assert(w / 2 <= (cw * cs) / 2) by (nonlinear_arith)
        requires
            0 <= w <= cw * cs,
    ;
    assert(w - w / 2 <= cw * cs - (cw * cs) / 2) by (nonlinear_arith)
        requires
            0 <= w <= cw * cs,
    ;
    assert((col + cs) * cw == col * cw + cw * cs) by (nonlinear_arith);
    assert((col + cs) * cw <= cols * cw) by (nonlinear_arith)
        requires
            col + cs <= cols,
            cw > 0,
    ;
    assert(col * cw <= cols * cw) by (nonlinear_arith)
        requires
            col <= cols,
            cw > 0,
    ;
}

/// The pixel rectangle of a drawn node lies within a `width` by `height` image
pub open spec fn pixels_inside(o: LayoutOffset, s: Size, width: int, height: int) -> bool {
    o.x + s.width <= width && o.y + s.height <= height
}

/// What holds of the nodes placed so far: each occupies a region of cells within the grid,
/// every cell of which is marked used, the regions are pairwise disjoint, and each node is drawn
/// within the pixels of its region
pub open spec fn placement_inv<D>(
    grid: GridLayout<D>,
    avail: Seq<Seq<bool>>,
    placed: Seq<(LayoutOffset, LayoutView<D>)>,
    regions: Seq<(int, int, int, int)>,
) -> bool {
    let cw = grid.cell_size.width as int;
    let ch = grid.cell_size.height as int;
    &&& avail.len() == grid.rows
    &&& forall|r: int| 0 <= r < grid.rows ==> #[trigger] avail[r].len() == grid.cols
    &&& placed.len() == regions.len()
    &&& forall|k: int|
        0 <= k < regions.len() ==> {
            let reg = #[trigger] regions[k];
            &&& 0 <= reg.0
            &&& reg.0 + reg.2 <= grid.rows
            &&& 0 <= reg.1
            &&& reg.1 + reg.3 <= grid.cols
            &&& reg.2 > 0
            &&& reg.3 > 0
        }
    &&& forall|k: int, r: int, c: int|
        #![trigger regions[k], avail[r][c]]
        0 <= k < regions.len() && regions[k].0 <= r < regions[k].0 + regions[k].2 && regions[k].1 <= c
            < regions[k].1 + regions[k].3 ==> avail[r][c]
    &&& forall|k1: int, k2: int|
        0 <= k1 < k2 < regions.len() ==> regions_disjoint(#[trigger] regions[k1], #[trigger] regions[k2])
    &&& forall|k: int|
        0 <= k < placed.len() ==> {
            &&& regions[k].1 * cw <= (#[trigger] placed[k]).0.x
            &&& placed[k].0.x + placed[k].1.size().width <= (regions[k].1 + regions[k].3) * cw
            &&& regions[k].0 * ch <= placed[k].0.y
            &&& placed[k].0.y + placed[k].1.size().height <= (regions[k].0 + regions[k].2) * ch
        }
}

/// A region is free exactly when it shares no cell with any occupied region
proof fn lemma_open_region_disjoint(
    avail: Seq<Seq<bool>>,
    regions: Seq<(int, int, int, int)>,
    k: int,
    row: int,
    col: int,
    rs: int,
    cs: int,
)
    requires
        0 <= k < regions.len(),
        regions[k].2 > 0,
        regions[k].3 > 0,
        rs > 0,
        cs > 0,
        region_open(avail, row, col, rs, cs),
        forall|r: int, c: int|
            regions[k].0 <= r < regions[k].0 + regions[k].2 && regions[k].1 <= c < regions[k].1
                + regions[k].3 ==> #[trigger] avail[r][c],
    ensures
        regions_disjoint(regions[k], (row, col, rs, cs)),
{
    let reg = regions[k];
    if !regions_disjoint(reg, (row, col, rs, cs)) {
        let r = if reg.0 > row { reg.0 } else { row };
        let c = if reg.1 > col { reg.1 } else { col };
        assert(avail[r][c]);
    }
}

/// Cells disjoint in a line of cells of width `cw` give disjoint pixel intervals
proof fn lemma_scaled_le(a: int, b: int, cw: int)
    requires
        a <= b,
        cw >= 0,
    ensures
        a * cw <= b * cw,
{
    assert(a * cw <= b * cw) by (nonlinear_arith)
        requires
            a <= b,
            cw >= 0,
    ;
}

/// The nodes of a laid-out grid of `cols` columns and `rows` rows of cells of size `cell_size`
/// each lie inside the grid's pixels, and no two of them overlap
pub open spec fn grid_nodes_laws<D>(
    cells: Seq<(LayoutOffset, LayoutView<D>)>,
    cell_size: Size,
    rows: u32,
    cols: u32,
) -> bool {
    &&& forall|i: int|
        0 <= i < cells.len() ==> pixels_inside(
            (#[trigger] cells[i]).0,
            cells[i].1.size(),
            cell_size.width * cols,
            cell_size.height * rows,
        )
    &&& forall|i: int, j: int|
        0 <= i < cells.len() && 0 <= j < cells.len() && i != j ==> pixels_disjoint(
            (#[trigger] cells[i]).0,
            cells[i].1.size(),
            (#[trigger] cells[j]).0,
            cells[j].1.size(),
        )
}

/// The placement invariant gives the laws of the nodes placed so far
proof fn lemma_inv_gives_laws<D>(
    grid: GridLayout<D>,
    avail: Seq<Seq<bool>>,
    placed: Seq<(LayoutOffset, LayoutView<D>)>,
    regions: Seq<(int, int, int, int)>,
)
    requires
        grid_header_wf(grid),
        placement_inv(grid, avail, placed, regions),
    ensures
        grid_nodes_laws(placed, grid.cell_size, grid.rows, grid.cols),
{
    let cw = grid.cell_size.width as int;
    let ch = grid.cell_size.height as int;
    assert forall|i: int| 0 <= i < placed.len() implies pixels_inside(
        (#[trigger] placed[i]).0,
        placed[i].1.size(),
        grid.cell_size.width * grid.cols,
        grid.cell_size.height * grid.rows,
    ) by {
        let reg = regions[i];
        assert(placed[i].0.x + placed[i].1.size().width <= (reg.1 + reg.3) * cw);
        lemma_scaled_le(reg.1 + reg.3, grid.cols as int, cw);
        lemma_scaled_le(reg.0 + reg.2, grid.rows as int, ch);
        assert(grid.cols * cw == grid.cell_size.width * grid.cols) by (nonlinear_arith)
            requires
                cw == grid.cell_size.width,
        ;
        assert(grid.rows * ch == grid.cell_size.height * grid.rows) by (nonlinear_arith)
            requires
                ch == grid.cell_size.height,
        ;
    }
    assert forall|i: int, j: int| 0 <= i < placed.len() && 0 <= j < placed.len() && i != j implies pixels_disjoint(
        (#[trigger] placed[i]).0,
        placed[i].1.size(),
        (#[trigger] placed[j]).0,
        placed[j].1.size(),
    ) by {
        let a = regions[i];
        let b = regions[j];
        assert(placed[i].0.x + placed[i].1.size().width <= (a.1 + a.3) * cw);
        assert(placed[j].0.x + placed[j].1.size().width <= (b.1 + b.3) * cw);
        if i < j {
            assert(regions_disjoint(regions[i], regions[j]));
        } else {
            assert(regions_disjoint(regions[j], regions[i]));
        }
        if a.1 + a.3 <= b.1 {
            lemma_scaled_le(a.1 + a.3, b.1, cw);
        } else if b.1 + b.3 <= a.1 {
            lemma_scaled_le(b.1 + b.3, a.1, cw);
        } else if a.0 + a.2 <= b.0 {
            lemma_scaled_le(a.0 + a.2, b.0, ch);
        } else {
            lemma_scaled_le(b.0 + b.2, a.0, ch);
        }
    }
}

/// Placing the remaining cells keeps the placement invariant, so that whatever comes out of a
/// successful placement lies inside the grid and has no two overlapping nodes
proof fn lemma_place_laws<D>(
    grid: GridLayout<D>,
    r: nat,
    c: nat,
    avail: Seq<Seq<bool>>,
    placed: Seq<(LayoutOffset, LayoutView<D>)>,
    regions: Seq<(int, int, int, int)>,
)
    requires
        grid_header_wf(grid),
        grid_cells_wf(grid, r, c),
        placement_inv(grid, avail, placed, regions),
    ensures
        spec_place(grid, r, c, avail, placed) matches Ok(result) ==> grid_nodes_laws(
            result,
            grid.cell_size,
            grid.rows,
            grid.cols,
        ),
    decreases grid.cells@.len() - r, grid.cells@[r as int]@.len() - c,
{
    if r >= grid.cells@.len() {
        lemma_inv_gives_laws(grid, avail, placed, regions);
    } else if c >= grid.cells@[r as int]@.len() {
        lemma_place_laws(grid, r + 1, 0, avail, placed, regions);
    } else {
        let cell = grid.cells@[r as int]@[c as int];
        match spec_layout(cell.node) {
            Err(e) => {},
            Ok(view) => {
                let size = view.size();
                let cs = cell.col_span as int;
                let rs = cell.row_span as int;
                let cw = grid.cell_size.width as int;
                let ch = grid.cell_size.height as int;
                if size.width > cw * cs || size.height > ch * rs {
                } else {
                    match find_region(avail, grid.rows as int, grid.cols as int, r as int, c as int, rs, cs) {
                        None => {},
                        Some(col) => {
                            lemma_first_fit(avail, r as int, c as int, rs, cs, grid.cols as int);
                            let avail2 = mark_used(avail, r as int, col, rs, cs);
                            let offset = centered_offset(grid.cell_size, r as int, col, rs, cs, size);
                            let placed2 = placed.push((offset, view));
                            let regions2 = regions.push((r as int, col, rs, cs));
                            lemma_centered_fits(cw, grid.cols as int, col, cs, size.width as int);
                            lemma_centered_fits(ch, grid.rows as int, r as int, rs, size.height as int);
                            assert(offset.x == col * cw + ((cw * cs) / 2 - size.width / 2));
                            assert(offset.y == r * ch + ((ch * rs) / 2 - size.height / 2));
                            assert forall|k: int| 0 <= k < regions.len() implies regions_disjoint(
                                #[trigger] regions[k],
                                (r as int, col, rs, cs),
                            ) by {
                                lemma_open_region_disjoint(avail, regions, k, r as int, col, rs, cs);
                            }
                            assert forall|k: int, rr: int, cc: int|
                                #![trigger regions2[k], avail2[rr][cc]]
                                0 <= k < regions2.len() && regions2[k].0 <= rr < regions2[k].0 + regions2[k].2
                                    && regions2[k].1 <= cc < regions2[k].1 + regions2[k].3 implies avail2[rr][cc] by {
                                if k < regions.len() {
                                    assert(regions2[k] == regions[k]);
                                    assert(avail[rr][cc]);
                                }
                            }
                            assert forall|k1: int, k2: int|
                                0 <= k1 < k2 < regions2.len() implies regions_disjoint(
                                #[trigger] regions2[k1],
                                #[trigger] regions2[k2],
                            ) by {
                                if k2 < regions.len() {
                                    assert(regions2[k1] == regions[k1]);
                                    assert(regions2[k2] == regions[k2]);
                                } else {
                                    assert(regions2[k1] == regions[k1]);
                                }
                            }
                            assert(placement_inv(grid, avail2, placed2, regions2));
                            lemma_place_laws(grid, r, c + 1, avail2, placed2, regions2);
                        },
                    }
                }
            },
        }
    }
}

/// Every node of a laid-out grid is drawn inside the grid's pixels, and no two nodes of the
/// grid overlap.
pub proof fn lemma_grid_layout_nodes_inside_and_disjoint<D>(grid: GridLayout<D>)
    requires
        grid_header_wf(grid),
        grid_cells_wf(grid, 0, 0),
    ensures
        spec_grid(grid) matches Ok(LayoutView::Grid { cells, cell_size, rows, cols }) ==> grid_nodes_laws(
            cells,
            cell_size,
            rows,
            cols,
        ),
{
    lemma_spec_grid(grid);
    let avail = empty_avail(grid.rows as int, grid.cols as int);
    assert(placement_inv(grid, avail, seq![], seq![]));
    lemma_place_laws(grid, 0, 0, avail, seq![], seq![]);
}

/// Placing the remaining cells of a grid keeps the nodes already placed, in order, in front of
/// the nodes it adds
pub proof fn lemma_place_keeps_placed<D>(
    grid: GridLayout<D>,
    r: nat,
    c: nat,
    avail: Seq<Seq<bool>>,
    placed: Seq<(LayoutOffset, LayoutView<D>)>,
)
    ensures
        spec_place(grid, r, c, avail, placed) matches Ok(result) ==> placed.len() <= result.len()
            && result.subrange(0, placed.len() as int) == placed,
    decreases grid.cells@.len() - r, grid.cells@[r as int]@.len() - c,
{
    if r >= grid.cells@.len() {
        if let Ok(result) = spec_place(grid, r, c, avail, placed) {
            assert(result.subrange(0, placed.len() as int) =~= placed);
        }
    } else if c >= grid.cells@[r as int]@.len() {
        lemma_place_keeps_placed(grid, r + 1, 0, avail, placed);
    } else {
        let cell = grid.cells@[r as int]@[c as int];
        if let Ok(view) = spec_layout(cell.node) {
            let size = view.size();
            let cs = cell.col_span as int;
            let rs = cell.row_span as int;
            if !(size.width > grid.cell_size.width * cs || size.height > grid.cell_size.height * rs) {
                if let Some(col) = find_region(avail, grid.rows as int, grid.cols as int, r as int, c as int, rs, cs) {
                    let placed2 = placed.push(
                        (centered_offset(grid.cell_size, r as int, col, rs, cs, size), view),
                    );
                    lemma_place_keeps_placed(grid, r, c + 1, mark_used(avail, r as int, col, rs, cs), placed2);
                    if let Ok(result) = spec_place(grid, r, c, avail, placed) {
                        assert(result.subrange(0, placed.len() as int) =~= placed2.subrange(
                            0,
                            placed.len() as int,
                        ));
                        assert(placed2.subrange(0, placed.len() as int) =~= placed);
                    }
                }
            }
        }
    }
}

/// The node of grid row `r` at index `c` is laid out itself and drawn, centered, in the first
/// free region of its span that starts in row `r` at or after column `c`: the region lies
/// within the grid, and no column from `c` up to the chosen one has room for the node. It comes
/// right after the nodes placed before it.
pub proof fn lemma_place_cell_column<D>(
    grid: GridLayout<D>,
    r: nat,
    c: nat,
    avail: Seq<Seq<bool>>,
    placed: Seq<(LayoutOffset, LayoutView<D>)>,
)
    requires
        r < grid.cells@.len(),
        c < grid.cells@[r as int]@.len(),
        spec_place(grid, r, c, avail, placed) is Ok,
    ensures
        ({
            let cell = grid.cells@[r as int]@[c as int];
            let rs = cell.row_span as int;
            let cs = cell.col_span as int;
            let result = spec_place(grid, r, c, avail, placed)->Ok_0;
            &&& spec_layout(cell.node) is Ok
            &&& placed.len() < result.len()
            &&& exists|k: int|
                #![trigger region_open(avail, r as int, k, rs, cs)]
                {
                    &&& c <= k
                    &&& k + cs <= grid.cols
                    &&& r + rs <= grid.rows
                    &&& region_open(avail, r as int, k, rs, cs)
                    &&& forall|j: int| c <= j < k ==> !region_open(avail, r as int, j, rs, cs)
                    &&& result[placed.len() as int] == (
                        centered_offset(
                            grid.cell_size,
                            r as int,
                            k,
                            rs,
                            cs,
                            spec_layout(cell.node)->Ok_0.size(),
                        ),
                        spec_layout(cell.node)->Ok_0,
                    )
                }
        }),
{
    let cell = grid.cells@[r as int]@[c as int];
    let rs = cell.row_span as int;
    let cs = cell.col_span as int;
    let view = spec_layout(cell.node)->Ok_0;
    let size = view.size();
    let col = find_region(avail, grid.rows as int, grid.cols as int, r as int, c as int, rs, cs)->Some_0;
    lemma_find_region(avail, grid.rows as int, grid.cols as int, r as int, c as int, rs, cs);
    let placed2 = placed.push((centered_offset(grid.cell_size, r as int, col, rs, cs, size), view));
    lemma_place_keeps_placed(grid, r, c + 1, mark_used(avail, r as int, col, rs, cs), placed2);
    let result = spec_place(grid, r, c, avail, placed)->Ok_0;
    assert(result.subrange(0, placed2.len() as int)[placed.len() as int] == placed2[placed.len() as int]);
    assert(region_open(avail, r as int, col, rs, cs));
}

} // verus!
