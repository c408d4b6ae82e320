use vstd::prelude::*;

use crate::grid::{valid_side, GridBounds};

verus! {

/// Side of a cell in pixels when the window has room for it.
pub const CELL_SIZE_IDEAL: usize = 50;

/// Fewest columns the grid is laid out with.
pub const MIN_HORIZONTAL_CELLS: usize = 10;

/// Fewest rows the grid is laid out with.
pub const MIN_VERTICAL_CELLS: usize = 10;

/// The layout `(columns, rows, cell size in pixels)` for a window of the given pixel
/// size. With room for the minimum of cells of the ideal size on both axes, the ideal
/// size is used; otherwise the axis with the smaller ratio of ideal cells to its minimum
/// (the vertical one on a tie) gets exactly its minimum of cells, the cell size is its
/// pixel length divided by that minimum, and the other axis holds as many cells of that
/// size as fit.
pub open spec fn layout_for(width: int, height: int) -> (int, int, int) {
    let h = width / CELL_SIZE_IDEAL as int;
    let v = height / CELL_SIZE_IDEAL as int;
    if h >= MIN_HORIZONTAL_CELLS && v >= MIN_VERTICAL_CELLS {
        (h, v, CELL_SIZE_IDEAL as int)
    } else if h * MIN_VERTICAL_CELLS < v * MIN_HORIZONTAL_CELLS {
        let cell = width / MIN_HORIZONTAL_CELLS as int;
        (MIN_HORIZONTAL_CELLS as int, if cell > 0 { height / cell } else { 0 }, cell)
    } else {
        let cell = height / MIN_VERTICAL_CELLS as int;
        (if cell > 0 { width / cell } else { 0 }, MIN_VERTICAL_CELLS as int, cell)
    }
}

/// Whether the layout has cells of at least one pixel and sides that make a grid.
pub open spec fn layout_fits(l: (int, int, int)) -> bool {
    l.2 > 0 && valid_side(l.0) && valid_side(l.1)
}

/// The grid bounds and cell size (in pixels) for a window of `width` x `height`
/// pixels, following `layout_for`; `None` where the window is too small (or too
/// elongated) for that layout to give cells of at least one pixel and a grid of at
/// least two cells a side.
pub fn compute_grid_bounds_for_available_space(width: usize, height: usize) -> (r: Option<
    (GridBounds, usize),
>)
    ensures
        r is None <==> !layout_fits(layout_for(width as int, height as int)),
        r matches Some((b, cell)) ==> {
            let l = layout_for(width as int, height as int);
            b.cols() == l.0 && b.rows() == l.1 && cell == l.2
        },
{
    let n_horizontal = width / CELL_SIZE_IDEAL;
    let n_vertical = height / CELL_SIZE_IDEAL;
    proof {
        assert(n_horizontal * MIN_VERTICAL_CELLS <= usize::MAX) by (nonlinear_arith)
            requires
                n_horizontal == width / 50,
        ;
        assert(n_vertical * MIN_HORIZONTAL_CELLS <= usize::MAX) by (nonlinear_arith)
            requires
                n_vertical == height / 50,
        ;
    }
    let (cols, rows, cell) = if n_horizontal >= MIN_HORIZONTAL_CELLS && n_vertical
        >= MIN_VERTICAL_CELLS {
        (n_horizontal, n_vertical, CELL_SIZE_IDEAL)
    } else if n_horizontal * MIN_VERTICAL_CELLS < n_vertical * MIN_HORIZONTAL_CELLS {
        // the horizontal axis is the more limiting one
        let cell = width / MIN_HORIZONTAL_CELLS;
        (MIN_HORIZONTAL_CELLS, if cell > 0 {
            height / cell
        } else {
            0
        }, cell)
    } else {
        // the vertical axis is the more limiting one
        let cell = height / MIN_VERTICAL_CELLS;
        (if cell > 0 {
            width / cell
        } else {
            0
        }, MIN_VERTICAL_CELLS, cell)
    };
    if cell > 0 && cols >= 2 && cols <= isize::MAX as usize && rows >= 2 && rows
        <= isize::MAX as usize {
        Some((GridBounds::from_size(cols, rows), cell))
    } else {
        None
    }
}

} // verus!
