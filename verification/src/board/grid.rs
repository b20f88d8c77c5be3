//! The grid of cells, an `Array2D`.
//!
//! The grid is opaque to the proofs. What they know of it is what the
//! contracts of this module say of `Array2D`'s functions, over the rows that
//! it holds. These contracts are not proved: they say what the source of
//! array2d shows.

use vstd::prelude::*;
use array2d::Array2D;
use crate::field::Field;

verus! {

/// `array2d::Array2D`, of which the proofs see nothing but what the
/// contracts below say.
#[verifier::external_type_specification]
#[verifier::external_body]
#[verifier::reject_recursive_types(T)]
pub struct ExArray2D<T>(Array2D<T>);

/// `array2d::Error`, the error of an access off the grid.
#[verifier::external_type_specification]
#[verifier::external_body]
pub struct ExArray2DError(array2d::Error);

/// The cells that a grid holds: its rows from the first to the last, each
/// row from its first column to its last.
pub uninterp spec fn grid_rows(grid: Array2D<Field>) -> Seq<Seq<Field>>;

/// Whether `row` and `column` address a cell of the grid.
pub open spec fn grid_has(grid: Array2D<Field>, row: usize, column: usize) -> bool {
    row < grid_rows(grid).len() && column < grid_rows(grid)[row as int].len()
}

/// `Array2D::filled_with`: a grid of `num_rows` rows and `num_columns`
/// columns in which every cell holds what `element` holds. The product of
/// the two sizes is computed in `usize`, so it has to fit.
#[verifier::external_body]
pub(crate) fn filled_with(element: Field, num_rows: usize, num_columns: usize) -> (r: Array2D<
    Field,
>)
    requires
        num_rows * num_columns <= usize::MAX,
    ensures
        grid_rows(r).len() == num_rows,
        forall|i: int| 0 <= i < num_rows ==> (#[trigger] grid_rows(r)[i]).len() == num_columns,
        forall|i: int, j: int|
            0 <= i < num_rows && 0 <= j < num_columns ==> (#[trigger] grid_rows(r)[i][j])@
                == element@,
{
    Array2D::filled_with(element, num_rows, num_columns)
}

/// `Array2D::get`: the cell at `row` and `column`, or `None` where the grid
/// has no such cell.
#[verifier::external_body]
pub(crate) fn get(grid: &Array2D<Field>, row: usize, column: usize) -> (r: Option<&Field>)
    ensures
        r.is_some() == grid_has(*grid, row, column),
        r.is_some() ==> *r.unwrap() == grid_rows(*grid)[row as int][column as int],
{
    grid.get(row, column)
}

/// `Array2D::set`: puts `element` into the cell at `row` and `column` and
/// leaves every other cell as it was. Where the grid has no such cell it
/// returns an error and changes nothing.
#[verifier::external_body]
pub(crate) fn set(grid: &mut Array2D<Field>, row: usize, column: usize, element: Field) -> (r:
    Result<(), array2d::Error>)
    ensures
        r.is_ok() == grid_has(*old(grid), row, column),
        r.is_ok() ==> grid_rows(*final(grid)) == grid_rows(*old(grid)).update(
            row as int,
            grid_rows(*old(grid))[row as int].update(column as int, element),
        ),
        r.is_err() ==> grid_rows(*final(grid)) == grid_rows(*old(grid)),
{
    grid.set(row, column, element)
}

/// `Clone::clone` of an `Array2D`: a grid of the same shape whose cells hold
/// what the cells of `grid` hold.
#[verifier::external_body]
pub(crate) fn duplicate(grid: &Array2D<Field>) -> (r: Array2D<Field>)
    ensures
        grid_rows(r).len() == grid_rows(*grid).len(),
        forall|i: int|
            0 <= i < grid_rows(r).len() ==> (#[trigger] grid_rows(r)[i]).len() == grid_rows(
                *grid,
            )[i].len(),
        forall|i: int, j: int|
            0 <= i < grid_rows(r).len() && 0 <= j < grid_rows(r)[i].len() ==> (
            #[trigger] grid_rows(r)[i][j])@ == grid_rows(*grid)[i][j]@,
{
    grid.clone()
}

} // verus!
