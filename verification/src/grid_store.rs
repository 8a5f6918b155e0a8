//! Trusted boundary around the `grid` crate's two-dimensional container.
//!
//! The board's cells live in a `grid::Grid<Piece>`. The type is opaque to the
//! verifier, so its contents are named by the uninterpreted function
//! [`grid_cells`], a sequence of rows, each row a sequence of cells, and each
//! operation the board logic calls is wrapped in a function whose contract
//! states what the crate's source shows over that name.

use vstd::prelude::*;

use crate::board::Piece;

verus! {

#[verifier::external_type_specification]
#[verifier::external_body]
#[verifier::reject_recursive_types(T)]
pub struct ExGrid<T>(grid::Grid<T>);

/// The cells a grid holds, row by row: `grid_cells(g)[row][col]`.
pub uninterp spec fn grid_cells(g: grid::Grid<Piece>) -> Seq<Seq<Piece>>;

/// Relies on `grid::Grid::init`: builds a `rows` x `cols` grid with every
/// cell holding the given value (`rows * cols` here cannot overflow).
#[verifier::external_body]
pub(crate) fn grid_new(rows: usize, cols: usize, fill: Piece) -> (r: grid::Grid<Piece>)
    requires
        1 <= rows <= 32766,
        1 <= cols <= 32766,
    ensures
        grid_cells(r).len() == rows,
        forall|i: int| 0 <= i < rows ==> (#[trigger] grid_cells(r)[i]).len() == cols,
        forall|i: int, j: int|
            0 <= i < rows && 0 <= j < cols ==> #[trigger] grid_cells(r)[i][j] == fill,
{
    grid::Grid::init(rows, cols, fill)
}

/// Relies on `grid::Grid::rows`: the number of rows of the grid.
#[verifier::external_body]
pub(crate) fn grid_rows(g: &grid::Grid<Piece>) -> (r: usize)
    ensures
        r == grid_cells(*g).len(),
{
    g.rows()
}

/// Relies on `grid::Grid::cols`: a grid is rectangular, every row holding
/// exactly `cols` elements.
#[verifier::external_body]
pub(crate) fn grid_cols(g: &grid::Grid<Piece>) -> (r: usize)
    ensures
        forall|i: int| 0 <= i < grid_cells(*g).len() ==> (#[trigger] grid_cells(*g)[i]).len() == r,
{
    g.cols()
}

/// Relies on `grid::Grid`'s `Index` impl: returns the element at
/// `(row, col)`; it panics only out of bounds, which the precondition rules
/// out.
#[verifier::external_body]
pub(crate) fn grid_get(g: &grid::Grid<Piece>, row: usize, col: usize) -> (r: Piece)
    requires
        row < grid_cells(*g).len(),
        col < grid_cells(*g)[row as int].len(),
    ensures
        r == grid_cells(*g)[row as int][col as int],
{
    g[(row, col)]
}

/// Relies on `grid::Grid`'s `IndexMut` impl: overwrites the element at
/// `(row, col)` and touches nothing else; it panics only out of bounds,
/// which the precondition rules out.
#[verifier::external_body]
pub(crate) fn grid_set(g: &mut grid::Grid<Piece>, row: usize, col: usize, p: Piece)
    requires
        row < grid_cells(*old(g)).len(),
        col < grid_cells(*old(g))[row as int].len(),
    ensures
        grid_cells(*final(g)) == grid_cells(*old(g)).update(
            row as int,
            grid_cells(*old(g))[row as int].update(col as int, p),
        ),
{
    g[(row, col)] = p;
}

} // verus!
