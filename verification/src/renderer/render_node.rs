use vstd::prelude::*;

use super::rendered_image::{RenderedImage, Size};

verus! {

/// A node of the tree that describes the image to render
#[derive(Debug)]
pub enum RenderNode<D> {
    RenderedImage(RenderedImage<D>),
    Layout(RenderLayout<D>),
    /// An empty slot, used to create a gap/empty cell in the layout
    Empty { size: Size },
}

/// Lays out one or more nodes in the given configuration
#[derive(Debug)]
pub enum RenderLayout<D> {
    Grid(GridLayout<D>),
}

#[derive(Debug)]
pub struct GridLayout<D> {
    /// Number of grid rows (nonzero)
    pub rows: u32,
    /// Number of grid columns (nonzero)
    pub cols: u32,
    /// Dimensions of each cell in pixels
    pub cell_size: Size,
    /// The nodes to layout, row by row
    pub cells: Vec<Vec<GridLayoutCell<D>>>,
}

/// A cell on a grid
#[derive(Debug)]
pub struct GridLayoutCell<D> {
    /// The node to render in this cell
    pub node: RenderNode<D>,
    /// The number of columns spanned for this cell (nonzero)
    pub col_span: u32,
    /// The number of rows spanned for this cell (nonzero)
    pub row_span: u32,
}

impl<D> GridLayoutCell<D> {
    /// Creates a new cell that spans a single cell
    pub fn single(node: RenderNode<D>) -> (cell: Self)
        ensures
            cell.node == node,
            cell.col_span == 1,
            cell.row_span == 1,
    {
        GridLayoutCell { node, col_span: 1, row_span: 1 }
    }
}

} // verus!
