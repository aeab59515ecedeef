//! A two-dimensional array of integers, kept in `ndarray`.
use vstd::prelude::*;
use ndarray::Array2;

verus! {

/// A two-dimensional array of `i64` held in an `ndarray::Array2`, which
/// Verus sees only through the functions below.
#[verifier::external_body]
pub struct Grid {
    cells: Array2<i64>,
}

/// The cells of a two-dimensional array, row by row.
pub uninterp spec fn grid_cells(a: Grid) -> Seq<Seq<i64>>;

/// A rectangular table of `rows` rows of `cols` cells each.
pub open spec fn is_table(c: Seq<Seq<i64>>, rows: int, cols: int) -> bool {
    c.len() == rows && forall|i: int| 0 <= i < rows ==> (#[trigger] c[i]).len() == cols
}

/// Relies on ndarray's `Array2::zeros`: an array of the given shape, every
/// cell zero; it panics when the product of the non-zero lengths overflows
/// `isize`, which these bounds rule out.
#[verifier::external_body]
pub(crate) fn zeros(rows: usize, cols: usize) -> (r: Grid)
    requires
        rows <= isize::MAX,
        cols <= isize::MAX,
        rows * cols <= isize::MAX,
    ensures
        grid_cells(r) == Seq::new(rows as nat, |i: int| Seq::new(cols as nat, |j: int| 0i64)),
{
    Grid { cells: Array2::zeros((rows, cols)) }
}

/// Relies on ndarray's indexing `a[[i, j]]`: the cell at row `i`, column `j`;
/// it panics out of bounds.
#[verifier::external_body]
pub(crate) fn cell(a: &Grid, i: usize, j: usize) -> (r: i64)
    requires
        0 <= i < grid_cells(*a).len(),
        0 <= j < grid_cells(*a)[i as int].len(),
    ensures
        r == grid_cells(*a)[i as int][j as int],
{
    a.cells[[i, j]]
}

/// Relies on ndarray's mutable indexing `a[[i, j]] = v`: that cell alone
/// changes; it panics out of bounds.
#[verifier::external_body]
pub(crate) fn set_cell(a: &mut Grid, i: usize, j: usize, v: i64)
    requires
        0 <= i < grid_cells(*old(a)).len(),
        0 <= j < grid_cells(*old(a))[i as int].len(),
    ensures
        grid_cells(*final(a)) == grid_cells(*old(a)).update(
            i as int,
            grid_cells(*old(a))[i as int].update(j as int, v),
        ),
{
    a.cells[[i, j]] = v;
}

} // verus!
