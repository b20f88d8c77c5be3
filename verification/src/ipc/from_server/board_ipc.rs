use vstd::prelude::*;
use array2d::Array2D;
use crate::board;
use crate::board::grid;
use crate::board::grid::grid_rows;
use crate::field::{Field, FieldView};
use crate::field_coordinate::FieldCoordinate;

verus! {

/// The cells of a board, as a client is shown them.
#[derive(Debug)]
pub struct Board(pub Array2D<Field>);

impl Board {
    /// Whether the grid has `size` rows of `size` cells.
    pub open spec fn square(&self, size: nat) -> bool {
        &&& grid_rows(self.0).len() == size
        &&& forall|y: int| 0 <= y < size ==> (#[trigger] grid_rows(self.0)[y]).len() == size
    }

    /// Whether the grid shows the cells of `board`: it has its shape, and
    /// its cell in row `y` and column `x` holds what the cell at `(x, y)`
    /// holds.
    pub open spec fn shows(&self, board: board::BoardView) -> bool {
        &&& self.square(board.size)
        &&& forall|c: FieldCoordinate|
            c.in_range(board.size as int) ==> (
            #[trigger] grid_rows(self.0)[c.y as int][c.x as int])@ == board.cell(c)
    }

    /// The cells of a board of side `size` on which no move was made.
    pub fn new(size: usize) -> (r: Self)
        requires
            size * size <= usize::MAX,
        ensures
            r.square(size as nat),
            forall|y: int, x: int|
                0 <= y < size && 0 <= x < size ==> (#[trigger] grid_rows(r.0)[y][x])@
                    == FieldView::empty((size * size) as nat),
    {
        Self(grid::filled_with(Field::entangled(size * size), size, size))
    }

    /// The cells of `value`.
    pub fn shown(value: &board::Board) -> (r: Self)
        requires
            value.wf(),
        ensures
            r.shows(value@),
    {
        Board(value.get_positions())
    }
}

impl Default for Board {
    fn default() -> (r: Self)
        ensures
            r.square(crate::DEFAULT_BOARD_SIZE as nat),
            forall|y: int, x: int|
                0 <= y < crate::DEFAULT_BOARD_SIZE && 0 <= x < crate::DEFAULT_BOARD_SIZE ==> (
                #[trigger] grid_rows(r.0)[y][x])@ == FieldView::empty(
                    (crate::DEFAULT_BOARD_SIZE * crate::DEFAULT_BOARD_SIZE) as nat,
                ),
    {
        assert(crate::DEFAULT_BOARD_SIZE * crate::DEFAULT_BOARD_SIZE == 9) by (nonlinear_arith)
            requires
                crate::DEFAULT_BOARD_SIZE == 3,
        ;
        Board::new(crate::DEFAULT_BOARD_SIZE)
    }
}

} // verus!
