use vstd::prelude::*;

use crate::renderer::rendered_image::Size;
use crate::renderer::render_node::{GridLayout, GridLayoutCell};
use super::{
    LayoutError, LayoutNode, LayoutOffset, LayoutView, centered_offset, empty_avail, find_region,
    first_fit, grid_cells_wf, grid_header_wf, mark_used, region_open, spec_grid, spec_place,
    cell_span_wf, grid_nodes_laws,
};

verus! {

/// A node of a grid together with the offset at which it is drawn
#[derive(Debug)]
pub struct GridCell<D> {
    pub offset: LayoutOffset,
    pub node: LayoutNode<D>,
}

/// A fully-computed grid layout
#[derive(Debug)]
pub struct Grid<D> {
    cells: Vec<GridCell<D>>,
    cell_size: Size,
    rows: u32,
    cols: u32,
}

impl<D> Grid<D> {
    /// The dimensions are nonzero, the pixel size of the grid fits in a `u32`, and the nodes
    /// lie inside the grid's pixels without overlapping
    #[verifier::type_invariant]
    spec fn inv(self) -> bool {
        &&& self.rows > 0
        &&& self.cols > 0
        &&& self.cell_size.wf()
        &&& self.cell_size.width * self.cols <= u32::MAX
        &&& self.cell_size.height * self.rows <= u32::MAX
        &&& grid_nodes_laws(
            cells_view(self.cells@, self.cells@.len()),
            self.cell_size,
            self.rows,
            self.cols,
        )
    }

    /// The cells of this grid with the offset of each, nested layouts included
    pub closed spec fn view_grid(self) -> LayoutView<D>
        decreases self, 0nat,
    {
        LayoutView::Grid {
            cells: cells_view(self.cells@, self.cells@.len()),
            cell_size: self.cell_size,
            rows: self.rows,
            cols: self.cols,
        }
    }
}

impl<D> Grid<D> {
    /// Lays out the cells of a grid, row by row.
    ///
    /// A grid given more rows of cells than it has rows does not fit. Otherwise each node is
    /// laid out itself, checked to fit in the pixel area of its span, and then put
    /// into the first free region of its span that starts in its own row at or after its own
    /// column, centered in that region.
    pub fn from_grid_layout(grid: GridLayout<D>) -> (res: Result<Self, LayoutError>)
        requires
            grid_header_wf(grid),
            grid_cells_wf(grid, 0, 0),
        ensures
            match res {
                Ok(g) => spec_grid(grid) == Ok::<LayoutView<D>, LayoutError>(g.view_grid()),
                Err(e) => spec_grid(grid) == Err::<LayoutView<D>, LayoutError>(e),
            },
        decreases grid,
    {
        let ghost g0 = grid;
        proof {
            super::lemma_spec_grid(grid);
        }
        let GridLayout { rows, cols, cell_size, cells: grid_cells } = grid;
        if grid_cells.len() > rows as usize {
            return Err(LayoutError::InsufficientGridSize { row: rows as usize, col: cols as usize });
        }
        let cell_width = cell_size.width;
        let cell_height = cell_size.height;

        let mut cells: Vec<GridCell<D>> = Vec::new();
        let mut free_cells = GridAvail::new(rows as usize, cols as usize);
        let ghost init = empty_avail(rows as int, cols as int);

        let mut row_index: usize = 0;
        for grid_row in row_iter: grid_cells.into_iter()
            invariant
                g0 == grid,
                init == empty_avail(g0.rows as int, g0.cols as int),
                g0.rows == rows,
                g0.cols == cols,
                g0.cell_size == cell_size,
                cell_width == cell_size.width,
                cell_height == cell_size.height,
                grid_header_wf(g0),
                g0.cells@.len() <= g0.rows,
                row_iter.seq() == g0.cells@,
                row_index == row_iter.index(),
                free_cells.wf(),
                free_cells.rows == rows as usize,
                free_cells.cols == cols as usize,
                grid_cells_wf(g0, row_index as nat, 0),
                spec_place(g0, 0, 0, init, seq![]) == spec_place(
                    g0,
                    row_index as nat,
                    0,
                    free_cells@,
                    cells_view(cells@, cells@.len()),
                ),
        {
            assert(row_index < g0.cells@.len());
            assert(g0.cells@.len() == g0.cells.len());
            assert(grid_row == g0.cells@[row_index as int]);
            let mut col_index: usize = 0;
            for grid_layout_cell in col_iter: grid_row.into_iter()
                invariant
                    g0 == grid,
                    init == empty_avail(g0.rows as int, g0.cols as int),
                    g0.rows == rows,
                    g0.cols == cols,
                    g0.cell_size == cell_size,
                    cell_width == cell_size.width,
                    cell_height == cell_size.height,
                    grid_header_wf(g0),
                    g0.cells@.len() <= g0.rows,
                g0.cells@.len() <= g0.rows,
                    row_index < g0.cells@.len(),
                    col_iter.seq() == g0.cells@[row_index as int]@,
                    col_index == col_iter.index(),
                    free_cells.wf(),
                    free_cells.rows == rows as usize,
                    free_cells.cols == cols as usize,
                    grid_cells_wf(g0, row_index as nat, col_index as nat),
                    spec_place(g0, 0, 0, init, seq![]) == spec_place(
                        g0,
                        row_index as nat,
                        col_index as nat,
                        free_cells@,
                        cells_view(cells@, cells@.len()),
                    ),
            {
                assert(col_index < g0.cells@[row_index as int]@.len());
                assert(grid_layout_cell == g0.cells@[row_index as int]@[col_index as int]);
                proof {
                    assert(decreases_to!(g0 => g0.cells));
                    assert(decreases_to!(g0.cells => g0.cells@));
                    assert(decreases_to!(g0.cells@ => g0.cells@[row_index as int]));
                    assert(decreases_to!(g0.cells@[row_index as int] => g0.cells@[row_index as int]@));
                    assert(decreases_to!(g0.cells@[row_index as int]@ => grid_layout_cell));
                    assert(decreases_to!(grid_layout_cell => grid_layout_cell.node));
                    assert(decreases_to!(g0 => grid_layout_cell.node));
                    assert(cell_span_wf(g0, row_index as int, col_index as int));
                }
                let GridLayoutCell { node, col_span, row_span } = grid_layout_cell;
                let layout_node = match LayoutNode::from_render_node(node) {
                    Ok(layout_node) => layout_node,
                    Err(e) => {
                        assert(spec_place(g0, row_index as nat, col_index as nat, free_cells@, cells_view(cells@, cells@.len())) == Err::<Seq<(LayoutOffset, LayoutView<D>)>, LayoutError>(e));
                        assert(spec_place(g0, row_index as nat, col_index as nat, free_cells@, cells_view(cells@, cells@.len())) == Err::<Seq<(LayoutOffset, LayoutView<D>)>, LayoutError>(e));
                        proof {
                            super::lemma_spec_grid_err(g0, e);
                        }
                        return Err(e);
                    },
                };
                let layout_node_size = layout_node.size();
                let layout_node_width = layout_node_size.width;
                let layout_node_height = layout_node_size.height;

                // Generate an error if the layout node is larger its specified grid space
                if layout_node_width > cell_width * col_span || layout_node_height > cell_height * row_span {
                    assert(spec_place(g0, row_index as nat, col_index as nat, free_cells@, cells_view(cells@, cells@.len())) == Err::<Seq<(LayoutOffset, LayoutView<D>)>, LayoutError>(LayoutError::LayoutNodeDoesNotFit));
                    proof {
                        super::lemma_spec_grid_err(g0, LayoutError::LayoutNodeDoesNotFit);
                    }
                    return Err(LayoutError::LayoutNodeDoesNotFit);
                }

                // Get the row and column index of the top-left corner of an available region
                // that can fit the layout
                let ghost free_cells_before = free_cells;
                let (free_row, free_col) = match free_cells.find_avail_region(
                    row_index,
                    col_index,
                    row_span as usize,
                    col_span as usize,
                ) {
                    Ok(position) => position,
                    Err(e) => {
                        assert(spec_place(g0, row_index as nat, col_index as nat, free_cells@, cells_view(cells@, cells@.len())) == Err::<Seq<(LayoutOffset, LayoutView<D>)>, LayoutError>(e));
                        proof {
                            super::lemma_spec_grid_err(g0, e);
                        }
                        return Err(e);
                    },
                };

                proof {
                    super::lemma_first_fit(free_cells_before@, row_index as int, col_index as int, row_span as int, col_span as int, cols as int);
                    super::lemma_centered_fits(
                        cell_width as int,
                        cols as int,
                        free_col as int,
                        col_span as int,
                        layout_node_width as int,
                    );
                    super::lemma_centered_fits(
                        cell_height as int,
                        rows as int,
                        free_row as int,
                        row_span as int,
                        layout_node_height as int,
                    );
                }

                // Calculation to find the relative offset to centre the image:
                // Find the centre of the region of the grid that the layout node resides in
                // and subtract half the size of the image from it.
                let x_centre_offset = (cell_width * col_span / 2) - (layout_node_width / 2);
                let y_centre_offset = (cell_height * row_span / 2) - (layout_node_height / 2);

                let offset = LayoutOffset {
                    x: free_col as u32 * cell_width + x_centre_offset,
                    y: free_row as u32 * cell_height + y_centre_offset,
                };

                let ghost old_cells = cells@;
                let cell = GridCell { offset, node: layout_node };
                cells.push(cell);
                proof {
                    lemma_cells_view_push(old_cells, cell);
                }
                col_index += 1;
            }
            row_index += 1;
        }

        proof {
            super::lemma_spec_grid(g0);
            super::lemma_grid_layout_nodes_inside_and_disjoint(g0);
        }
        Ok(Grid { cells, cell_size, rows, cols })
    }
}

impl<D> Grid<D> {
    /// The size of each cell of this grid
    pub fn cell_size(&self) -> (s: Size)
        ensures
            s == self.view_grid()->Grid_cell_size,
    {
        self.cell_size
    }

    /// The number of rows of this grid
    pub fn rows(&self) -> (rows: u32)
        ensures
            rows == self.view_grid()->Grid_rows,
    {
        self.rows
    }

    /// The number of columns of this grid
    pub fn cols(&self) -> (cols: u32)
        ensures
            cols == self.view_grid()->Grid_cols,
    {
        self.cols
    }

    /// Returns the total size of the image generated by this layout
    pub fn size(&self) -> (s: Size)
        ensures
            s == self.view_grid().size(),
            s.wf(),
    {
        Size { width: self.width(), height: self.height() }
    }

    /// The total width of the image generated by this layout
    pub fn width(&self) -> (w: u32)
        ensures
            w == self.view_grid().size().width,
            w > 0,
    {
        proof {
            use_type_invariant(self);
            assert(self.cell_size.width * self.cols > 0) by (nonlinear_arith)
                requires
                    self.cell_size.width > 0,
                    self.cols > 0,
            ;
        }
        self.cell_size.width * self.cols
    }

    /// The total height of the image generated by this layout
    pub fn height(&self) -> (h: u32)
        ensures
            h == self.view_grid().size().height,
            h > 0,
    {
        proof {
            use_type_invariant(self);
            assert(self.cell_size.height * self.rows > 0) by (nonlinear_arith)
                requires
                    self.cell_size.height > 0,
                    self.rows > 0,
            ;
        }
        self.cell_size.height * self.rows
    }
}

impl<D> Grid<D> {
    /// The nodes of this grid, each with the offset at which it is drawn, in placement order
    pub fn iter_targets(self) -> (targets: Vec<(LayoutOffset, LayoutNode<D>)>)
        ensures
            self.view_grid() matches LayoutView::Grid { cells, cell_size, rows, cols } && {
                &&& cell_size.wf()
                &&& cell_size.width * cols <= u32::MAX
                &&& cell_size.height * rows <= u32::MAX
                &&& grid_nodes_laws(cells, cell_size, rows, cols)
            },
            targets@.len() == self.view_grid()->Grid_cells.len(),
            forall|i: int|
                0 <= i < targets@.len() ==> (#[trigger] targets@[i].0, targets@[i].1.view())
                    == self.view_grid()->Grid_cells[i],
    {
        proof {
            use_type_invariant(&self);
            lemma_cells_view_index(self.cells@, self.cells@.len());
        }
        let ghost cells0 = self.cells@;
        let mut targets: Vec<(LayoutOffset, LayoutNode<D>)> = Vec::new();
        for cell in cell_iter: self.cells.into_iter()
            invariant
                cell_iter.seq() == cells0,
                targets@.len() == cell_iter.index(),
                forall|i: int|
                    0 <= i < targets@.len() ==> #[trigger] targets@[i].0 == cells0[i].offset
                        && targets@[i].1 == cells0[i].node,
        {
            targets.push((cell.offset, cell.node));
        }
        targets
    }
}

/// The views of the first `n` cells
pub closed spec fn cells_view<D>(cells: Seq<GridCell<D>>, n: nat) -> Seq<(LayoutOffset, LayoutView<D>)>
    decreases cells, n,
{
    if n == 0 || n > cells.len() {
        seq![]
    } else {
        proof {
            assert(decreases_to!(cells => cells[n - 1]));
        }
        cells_view(cells, (n - 1) as nat).push((cells[n - 1].offset, cells[n - 1].node.view()))
    }
}

proof fn lemma_cells_view_push<D>(cells: Seq<GridCell<D>>, cell: GridCell<D>)
    ensures
        cells_view(cells.push(cell), cells.len() + 1) == cells_view(cells, cells.len()).push(
            (cell.offset, cell.node.view()),
        ),
{
    lemma_cells_view_prefix(cells.push(cell), cells.len());
    assert(cells.push(cell).subrange(0, cells.len() as int) == cells);
}

proof fn lemma_cells_view_prefix<D>(cells: Seq<GridCell<D>>, n: nat)
    requires
        n <= cells.len(),
    ensures
        cells_view(cells, n) == cells_view(cells.subrange(0, n as int), n),
    decreases n,
{
    if n > 0 {
        lemma_cells_view_prefix(cells, (n - 1) as nat);
        lemma_cells_view_prefix(cells.subrange(0, n as int), (n - 1) as nat);
        assert(cells.subrange(0, n as int).subrange(0, n - 1) == cells.subrange(0, n - 1));
    }
}

/// Each element of the view of the first `n` cells is the offset and view of that cell
proof fn lemma_cells_view_index<D>(cells: Seq<GridCell<D>>, n: nat)
    requires
        n <= cells.len(),
    ensures
        cells_view(cells, n).len() == n,
        forall|i: int| 0 <= i < n ==> #[trigger] cells_view(cells, n)[i] == (cells[i].offset, cells[i].node.view()),
    decreases n,
{
    if n > 0 {
        lemma_cells_view_index(cells, (n - 1) as nat);
    }
}

/// Availability status of a cell in the grid
#[derive(Debug, Clone, Copy, PartialEq, Eq, Structural)]
enum Cell {
    /// No part of a node is currently in this cell
    Open,
    /// Some part of a node is currently in this cell
    Used,
}

/// Tracks the available cells in the grid during grid layout
#[derive(Debug)]
struct GridAvail {
    /// The availability status of each cell stored in a row-wise manner
    cells: Vec<Vec<Cell>>,
    /// The total number of rows of the grid
    rows: usize,
    /// The total number of columns of the grid
    cols: usize,
}

impl GridAvail {
    /// Which cells are occupied (`true`) and which are free
    spec fn view(self) -> Seq<Seq<bool>> {
        Seq::new(
            self.cells@.len(),
            |r: int| Seq::new(self.cells@[r]@.len(), |c: int| self.cells@[r]@[c] == Cell::Used),
        )
    }

    /// There are `rows` rows of `cols` cells each
    spec fn wf(self) -> bool {
        &&& self.cells@.len() == self.rows
        &&& forall|r: int| 0 <= r < self.rows ==> #[trigger] self.cells@[r]@.len() == self.cols
    }

    /// Creates a new availability grid with all cells set to Open
    fn new(rows: usize, cols: usize) -> (avail: Self)
        ensures
            avail.wf(),
            avail.rows == rows,
            avail.cols == cols,
            avail@ == empty_avail(rows as int, cols as int),
    {
        let mut cells: Vec<Vec<Cell>> = Vec::new();
        let mut r: usize = 0;
        while r < rows
            invariant
                r <= rows,
                cells@.len() == r,
                forall|i: int| 0 <= i < r ==> #[trigger] cells@[i]@.len() == cols,
                forall|i: int, j: int| 0 <= i < r && 0 <= j < cols ==> #[trigger] cells@[i]@[j] == Cell::Open,
            decreases rows - r,
        {
            let mut row: Vec<Cell> = Vec::new();
            let mut c: usize = 0;
            while c < cols
                invariant
                    c <= cols,
                    row@.len() == c,
                    forall|j: int| 0 <= j < c ==> row@[j] == Cell::Open,
                decreases cols - c,
            {
                row.push(Cell::Open);
                c += 1;
            }
            cells.push(row);
            r += 1;
        }
        let avail = GridAvail { cells, rows, cols };
        assert(avail@ =~~= empty_avail(rows as int, cols as int));
        avail
    }

    /// Whether the `row_span` by `col_span` region with top-left corner (row, col) is free
    fn check_avail(&self, row: usize, col: usize, row_span: usize, col_span: usize) -> (free: bool)
        requires
            self.wf(),
            row + row_span <= self.rows,
            col + col_span <= self.cols,
        ensures
            free == region_open(self@, row as int, col as int, row_span as int, col_span as int),
    {
        let mut r = row;
        while r < row + row_span
            invariant
                self.wf(),
                row + row_span <= self.rows,
                col + col_span <= self.cols,
                row <= r <= row + row_span,
                forall|i: int, j: int|
                    row <= i < r && col <= j < col + col_span ==> !#[trigger] self@[i][j],
            decreases row + row_span - r,
        {
            let mut c = col;
            while c < col + col_span
                invariant
                    self.wf(),
                    row <= r < row + row_span,
                    row + row_span <= self.rows,
                    col + col_span <= self.cols,
                    col <= c <= col + col_span,
                    forall|i: int, j: int|
                        row <= i < r && col <= j < col + col_span ==> !#[trigger] self@[i][j],
                    forall|j: int| col <= j < c ==> !#[trigger] self@[r as int][j],
                decreases col + col_span - c,
            {
                if self.cells[r][c] == Cell::Used {
                    assert(self@[r as int][c as int]);
                    return false;
                }
                c += 1;
            }
            r += 1;
        }
        true
    }

    /// Marks every cell of the `row_span` by `col_span` region with top-left corner (row, col)
    /// as used
    fn set_unavail(&mut self, row: usize, col: usize, row_span: usize, col_span: usize)
        requires
            old(self).wf(),
            row + row_span <= old(self).rows,
            col + col_span <= old(self).cols,
        ensures
            final(self).wf(),
            final(self).rows == old(self).rows,
            final(self).cols == old(self).cols,
            final(self)@ == mark_used(old(self)@, row as int, col as int, row_span as int, col_span as int),
    {
        let ghost start = self@;
        let mut r = row;
        while r < row + row_span
            invariant
                self.wf(),
                self.rows == old(self).rows,
                self.cols == old(self).cols,
                row + row_span <= self.rows,
                col + col_span <= self.cols,
                row <= r <= row + row_span,
                start == old(self)@,
                start.len() == self.rows,
                forall|i: int| 0 <= i < self.rows ==> #[trigger] start[i].len() == self.cols,
                forall|i: int, j: int|
                    0 <= i < self.rows && 0 <= j < self.cols ==> #[trigger] self@[i][j] == (start[i][j]
                        || (row <= i < r && col <= j < col + col_span)),
            decreases row + row_span - r,
        {
            let mut c = col;
            while c < col + col_span
                invariant
                    self.wf(),
                    self.rows == old(self).rows,
                    self.cols == old(self).cols,
                    row <= r < row + row_span,
                    row + row_span <= self.rows,
                    col + col_span <= self.cols,
                    col <= c <= col + col_span,
                    start == old(self)@,
                    start.len() == self.rows,
                    forall|i: int| 0 <= i < self.rows ==> #[trigger] start[i].len() == self.cols,
                    forall|i: int, j: int|
                        0 <= i < self.rows && 0 <= j < self.cols ==> #[trigger] self@[i][j] == (
                        start[i][j] || (row <= i < r && col <= j < col + col_span) || (i == r && col
                            <= j < c)),
                decreases col + col_span - c,
            {
                let ghost before = self.cells@;
                let ghost prev = self@;
                let mut cells_row: Vec<Cell> = Vec::new();
                self.cells.set_and_swap(r, &mut cells_row);
                cells_row.set(c, Cell::Used);
                self.cells.set_and_swap(r, &mut cells_row);
                assert(self.cells@[r as int]@ == before[r as int]@.update(c as int, Cell::Used));
                assert(forall|i: int| 0 <= i < self.rows && i != r ==> self.cells@[i] == before[i]);
                assert forall|i: int, j: int| 0 <= i < self.rows && 0 <= j < self.cols implies #[trigger] self@[i][j] == (
                        start[i][j] || (row <= i < r && col <= j < col + col_span) || (i == r && col
                            <= j < c + 1)) by {
                    assert(prev[i][j] == (start[i][j] || (row <= i < r && col <= j < col + col_span) || (i == r && col
                            <= j < c)));
                    if i != r {
                        assert(self.cells@[i] == before[i]);
                    } else {
                        assert(self.cells@[i]@[j] == before[i]@.update(c as int, Cell::Used)[j]);
                    }
                }
                c += 1;
            }
            r += 1;
        }
        assert(self@ =~~= mark_used(start, row as int, col as int, row_span as int, col_span as int));
    }

    /// Searches the given row starting at the given column for a region of the given size.
    ///
    /// If a region is found, sets the cells in that region to `Used` and returns the top-left
    /// position of the region as a row index and a column index.
    ///
    /// If no region is found, returns an error.
    fn find_avail_region(&mut self, row: usize, start_col: usize, row_span: usize, col_span: usize) -> (res: Result<(usize, usize), LayoutError>)
        requires
            old(self).wf(),
            row + row_span <= usize::MAX,
            start_col + col_span <= usize::MAX,
        ensures
            final(self).wf(),
            final(self).rows == old(self).rows,
            final(self).cols == old(self).cols,
            match find_region(old(self)@, old(self).rows as int, old(self).cols as int, row as int, start_col as int, row_span as int, col_span as int) {
                Some(col) => res == Ok::<(usize, usize), LayoutError>((row, col as usize))
                    && final(self)@ == mark_used(old(self)@, row as int, col, row_span as int, col_span as int),
                None => res == Err::<(usize, usize), LayoutError>(LayoutError::InsufficientGridSize { row: old(self).rows, col: old(self).cols })
                    && final(self)@ == old(self)@,
            },
            res matches Ok((r, k)) ==> {
                &&& r == row
                &&& start_col <= k
                &&& k + col_span <= old(self).cols
                &&& row + row_span <= old(self).rows
                &&& region_open(old(self)@, row as int, k as int, row_span as int, col_span as int)
                &&& forall|j: int| start_col <= j < k ==> !region_open(old(self)@, row as int, j, row_span as int, col_span as int)
            },
            res is Err ==> {
                ||| row + row_span > old(self).rows
                ||| forall|j: int| start_col <= j && j + col_span <= old(self).cols ==> !region_open(old(self)@, row as int, j, row_span as int, col_span as int)
            },
    {
        proof {
            super::lemma_find_region(self@, self.rows as int, self.cols as int, row as int, start_col as int, row_span as int, col_span as int);
        }
        let rows = self.rows;
        let cols = self.cols;

        // row_span and col_span will always be at least 1, so we compare using `>`, not `>=`
        if row + row_span > rows || start_col + col_span > cols {
            return Err(LayoutError::InsufficientGridSize { row: rows, col: cols });
        }

        // Column of top-left corner of region may only be up to `cols - col_span`.
        // This helps us avoid checking columns we know the node won't fit in.
        let mut col = start_col;
        while col <= cols - col_span
            invariant
                self.wf(),
                self.rows == rows,
                self.cols == cols,
                rows == old(self).rows,
                cols == old(self).cols,
                self@ == old(self)@,
                row + row_span <= rows,
                start_col <= col,
                start_col + col_span <= cols,
                first_fit(self@, row as int, start_col as int, row_span as int, col_span as int, cols as int)
                    == first_fit(self@, row as int, col as int, row_span as int, col_span as int, cols as int),
            decreases cols - col,
        {
            if self.check_avail(row, col, row_span, col_span) {
                proof {
                    super::lemma_find_region(self@, rows as int, cols as int, row as int, start_col as int, row_span as int, col_span as int);
                }
                self.set_unavail(row, col, row_span, col_span);
                return Ok((row, col));
            }
            col += 1;
        }

        // No available region found
        Err(LayoutError::InsufficientGridSize { row: rows, col: cols })
    }
}

} // verus!
