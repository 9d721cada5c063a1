use spritec::renderer::layout::{LayoutError, LayoutNode, LayoutOffset};
use spritec::renderer::render_node::{GridLayout, GridLayoutCell, RenderLayout, RenderNode};
use spritec::renderer::rendered_image::{RenderedImage, Size};

/// The structure of a computed layout, for comparing against an expected one
#[derive(Debug, PartialEq)]
enum Shape {
    Image(Size, u32),
    Empty(Size),
    Grid {
        cell_size: Size,
        rows: u32,
        cols: u32,
        cells: Vec<(LayoutOffset, Shape)>,
    },
}

fn shape(node: LayoutNode<u32>) -> Shape {
    match node {
        LayoutNode::RenderedImage(image) => Shape::Image(image.size, image.data),
        LayoutNode::Empty { size } => Shape::Empty(size),
        LayoutNode::Grid(grid) => {
            let cell_size = grid.cell_size();
            let rows = grid.rows();
            let cols = grid.cols();
            let cells = grid
                .iter_targets()
                .into_iter()
                .map(|(offset, node)| (offset, shape(node)))
                .collect();
            Shape::Grid { cell_size, rows, cols, cells }
        }
    }
}

fn size(width: u32, height: u32) -> Size {
    Size { width, height }
}

fn empty(width: u32, height: u32) -> RenderNode<u32> {
    RenderNode::Empty { size: size(width, height) }
}

fn cell(node: RenderNode<u32>, col_span: u32, row_span: u32) -> GridLayoutCell<u32> {
    GridLayoutCell { node, col_span, row_span }
}

fn grid(rows: u32, cols: u32, cell_size: Size, cells: Vec<Vec<GridLayoutCell<u32>>>) -> RenderNode<u32> {
    RenderNode::Layout(RenderLayout::Grid(GridLayout { rows, cols, cell_size, cells }))
}

fn offset(x: u32, y: u32) -> LayoutOffset {
    LayoutOffset { x, y }
}

fn assert_err(actual: Result<LayoutNode<u32>, LayoutError>, expected: LayoutError) {
    match actual {
        Ok(_) => panic!("Expected an Err(...) but everything was Ok!"),
        Err(err) => assert_eq!(err, expected),
    }
}

#[test]
fn image_too_large() {
    // Checks that we get an error if a node is bigger than the cell size
    let cell_size = size(10, 10);
    let node_size = size(25, 10);

    let node = grid(1, 3, cell_size, vec![vec![
        // These spans fit within the grid size, only the `node_size` is a problem
        cell(RenderNode::Empty { size: node_size }, 2, 1),
    ]]);

    let expected = LayoutError::LayoutNodeDoesNotFit;
    let actual = LayoutNode::from_render_node(node);
    assert_err(actual, expected);
}

#[test]
fn row_size_bound() {
    // 2x2 grid where 3 rows are provided
    let node = grid(2, 2, size(10, 10), vec![
        vec![cell(empty(10, 30), 1, 1)],
        vec![cell(empty(10, 10), 1, 1), cell(empty(10, 10), 1, 1)],
        vec![cell(empty(10, 30), 1, 1)],
    ]);

    let expected = LayoutError::InsufficientGridSize { row: 2, col: 2 };
    let actual = LayoutNode::from_render_node(node);
    assert_err(actual, expected);
}

#[test]
fn row_span_bound() {
    // 2x2 grid where a cell has row span 3
    let node = grid(2, 2, size(10, 10), vec![
        vec![cell(empty(10, 30), 1, 3)],
        vec![cell(empty(10, 10), 1, 1), cell(empty(10, 10), 1, 1)],
    ]);

    let expected = LayoutError::InsufficientGridSize { row: 2, col: 2 };
    let actual = LayoutNode::from_render_node(node);
    assert_err(actual, expected);
}

#[test]
fn col_span_bound() {
    // 2x2 grid where a node in the second column has a col span > 1
    let node = grid(2, 2, size(10, 10), vec![
        vec![cell(empty(10, 10), 1, 1), cell(empty(10, 10), 1, 1)],
        vec![cell(empty(10, 10), 1, 1), cell(empty(20, 10), 2, 1)],
    ]);

    let expected = LayoutError::InsufficientGridSize { row: 2, col: 2 };
    let actual = LayoutNode::from_render_node(node);
    assert_err(actual, expected);
}

// A nested grid of Emptys where the inner grid is embedded into the bottom row of a 2x2
// (40x40 px) grid called node.
//
// * Offsets in node: [(0,0), (20,0), (12, 22)]
//   * (12, 22) is because the inner grid is centered within its cell
// * Offsets in inner_grid: [(1,0), (5,0), (9,1), (1,9), (8,8), (1,13), (5,13), (9,13), (13,13)]
//   * Some of these offsets are at odd numbers because of centering
// * The area from (4,4) to (8,8) is *completely* empty as in there's no node there at all
#[test]
fn general_use_grid() {
    let inner_grid = grid(4, 4, size(4, 4), vec![
        vec![cell(empty(2, 8), 1, 2), cell(empty(2, 4), 1, 1), cell(empty(6, 6), 2, 2)],
        vec![],
        vec![cell(empty(7, 3), 2, 1), cell(empty(8, 4), 2, 1)],
        vec![
            cell(empty(2, 2), 1, 1),
            cell(empty(2, 2), 1, 1),
            cell(empty(2, 2), 1, 1),
            cell(empty(2, 2), 1, 1),
        ],
    ]);
    let node = grid(2, 2, size(20, 20), vec![
        vec![cell(empty(20, 20), 1, 1), cell(empty(20, 20), 1, 1)],
        vec![cell(inner_grid, 2, 1)],
    ]);

    let expected = Shape::Grid {
        cell_size: size(20, 20),
        rows: 2,
        cols: 2,
        cells: vec![
            (offset(0, 0), Shape::Empty(size(20, 20))),
            (offset(20, 0), Shape::Empty(size(20, 20))),
            (offset(12, 22), Shape::Grid {
                cell_size: size(4, 4),
                rows: 4,
                cols: 4,
                cells: vec![
                    (offset(1, 0), Shape::Empty(size(2, 8))),
                    (offset(5, 0), Shape::Empty(size(2, 4))),
                    (offset(9, 1), Shape::Empty(size(6, 6))),
                    (offset(1, 9), Shape::Empty(size(7, 3))),
                    (offset(8, 8), Shape::Empty(size(8, 4))),
                    (offset(1, 13), Shape::Empty(size(2, 2))),
                    (offset(5, 13), Shape::Empty(size(2, 2))),
                    (offset(9, 13), Shape::Empty(size(2, 2))),
                    (offset(13, 13), Shape::Empty(size(2, 2))),
                ],
            }),
        ],
    };

    let actual = LayoutNode::from_render_node(node).unwrap();
    assert_eq!(shape(actual), expected);
}

fn image(width: u32, height: u32, data: u32) -> RenderNode<u32> {
    RenderNode::RenderedImage(RenderedImage { size: size(width, height), data })
}

#[test]
fn single_image_layout_is_the_image_itself() {
    let node = LayoutNode::from_render_node(image(7, 5, 1)).unwrap();
    assert_eq!(node.size(), size(7, 5));
    let targets = node.iter_targets();
    assert_eq!(targets.len(), 1);
    assert_eq!(targets[0].0, offset(0, 0));
    assert_eq!(shape(LayoutNode::from_render_node(image(7, 5, 1)).unwrap()), Shape::Image(size(7, 5), 1));
}

#[test]
fn grid_size_is_cell_size_times_dimensions() {
    let node = grid(3, 2, size(10, 4), vec![vec![cell(image(10, 4, 1), 1, 1)]]);
    let node = LayoutNode::from_render_node(node).unwrap();
    assert_eq!(node.size(), size(20, 12));
}

#[test]
fn node_is_centered_in_its_span() {
    // A 3x1 node in a 2x2 span of 5x5 cells: centered at ((10 / 2 - 3 / 2), (10 / 2 - 1 / 2))
    let node = grid(2, 2, size(5, 5), vec![vec![cell(image(3, 1, 9), 2, 2)]]);
    let actual = shape(LayoutNode::from_render_node(node).unwrap());
    let expected = Shape::Grid {
        cell_size: size(5, 5),
        rows: 2,
        cols: 2,
        cells: vec![(offset(4, 5), Shape::Image(size(3, 1), 9))],
    };
    assert_eq!(actual, expected);
}

#[test]
fn node_moves_right_past_occupied_cells() {
    // The second row's first cell is taken by the first row's row span, so its node moves right
    let node = grid(2, 2, size(4, 4), vec![
        vec![cell(image(4, 8, 1), 1, 2)],
        vec![cell(image(4, 4, 2), 1, 1)],
    ]);
    let actual = shape(LayoutNode::from_render_node(node).unwrap());
    let expected = Shape::Grid {
        cell_size: size(4, 4),
        rows: 2,
        cols: 2,
        cells: vec![
            (offset(0, 0), Shape::Image(size(4, 8), 1)),
            (offset(4, 4), Shape::Image(size(4, 4), 2)),
        ],
    };
    assert_eq!(actual, expected);
}

#[test]
fn nodes_never_overlap_and_stay_inside() {
    let node = grid(3, 3, size(6, 6), vec![
        vec![cell(image(12, 6, 1), 2, 1), cell(image(5, 17, 2), 1, 3)],
        vec![cell(image(6, 6, 3), 1, 1), cell(image(6, 6, 4), 1, 1)],
        vec![cell(image(11, 3, 5), 2, 1)],
    ]);
    let layout = LayoutNode::from_render_node(node).unwrap();
    let total = layout.size();
    let list = layout.into_draw_list();
    assert_eq!(list.len(), 5);
    for (i, (o1, img1)) in list.iter().enumerate() {
        assert!(o1.x + img1.size.width <= total.width);
        assert!(o1.y + img1.size.height <= total.height);
        for (o2, img2) in list.iter().skip(i + 1) {
            let apart = o1.x + img1.size.width <= o2.x
                || o2.x + img2.size.width <= o1.x
                || o1.y + img1.size.height <= o2.y
                || o2.y + img2.size.height <= o1.y;
            assert!(apart);
        }
    }
}

#[test]
fn draw_list_of_nested_grid_has_absolute_offsets() {
    let inner = grid(1, 2, size(3, 3), vec![vec![cell(image(3, 3, 1), 1, 1), cell(image(1, 1, 2), 1, 1)]]);
    let node = grid(2, 1, size(6, 3), vec![
        vec![cell(empty(6, 3), 1, 1)],
        vec![cell(inner, 1, 1)],
    ]);
    let layout = LayoutNode::from_render_node(node).unwrap();
    let list: Vec<(LayoutOffset, u32)> = layout
        .into_draw_list()
        .into_iter()
        .map(|(offset, image)| (offset, image.data))
        .collect();
    // The inner grid sits at (0, 3); its second image is centered in its 3x3 cell at (4, 1)
    assert_eq!(list, vec![(offset(0, 3), 1), (offset(4, 4), 2)]);
}

#[test]
fn layout_error_reports_the_grid_dimensions() {
    let node = grid(1, 1, size(2, 2), vec![vec![cell(empty(2, 2), 1, 1), cell(empty(2, 2), 1, 1)]]);
    assert_err(LayoutNode::from_render_node(node), LayoutError::InsufficientGridSize { row: 1, col: 1 });
}

#[test]
fn nested_layout_errors_propagate() {
    let inner = grid(1, 1, size(2, 2), vec![vec![cell(empty(3, 2), 1, 1)]]);
    let node = grid(1, 1, size(2, 2), vec![vec![cell(inner, 1, 1)]]);
    assert_err(LayoutNode::from_render_node(node), LayoutError::LayoutNodeDoesNotFit);
}

#[test]
fn size_min_value_and_max() {
    assert_eq!(Size::min_value(), size(1, 1));
    assert_eq!(size(3, 9).max(size(5, 2)), size(5, 9));
    assert_eq!(LayoutOffset::default(), offset(0, 0));
}

#[test]
fn grid_layout_cell_single_spans_one_cell() {
    let c = GridLayoutCell::single(empty(1, 2));
    assert_eq!((c.col_span, c.row_span), (1, 1));
}
