//! The addresses of the cells.

use vstd::prelude::*;
use vstd::arithmetic::div_mod::lemma_fundamental_div_mod_converse;

verus! {

/// The address of a cell: column `x` and row `y`, both counted from 0.
#[derive(Clone, Copy, Debug, PartialEq, Eq, Structural, Hash)]
pub struct FieldCoordinate {
    pub x: usize,
    pub y: usize,
}

impl FieldCoordinate {
    /// The cell's position when the rows of a board of side `size` are laid
    /// end to end.
    pub open spec fn index(self, size: int) -> int {
        self.y * size + self.x
    }

    /// Whether the coordinate lies on a board of side `size`.
    pub open spec fn in_range(self, size: int) -> bool {
        self.x < size && self.y < size
    }

    /// The coordinate of the cell at position `value` on a board of side `size`.
    pub open spec fn at(value: int, size: int) -> FieldCoordinate {
        FieldCoordinate { x: (value % size) as usize, y: (value / size) as usize }
    }

    pub fn into_usize(&self, size: usize) -> (r: usize)
        requires
            self.index(size as int) <= usize::MAX,
        ensures
            r == self.index(size as int),
    {
        assert(self.y * size <= self.y * size + self.x);
        self.y * size + self.x
    }

    pub fn from_usize(value: usize, size: usize) -> (r: FieldCoordinate)
        requires
            size > 0,
        ensures
            r == Self::at(value as int, size as int),
            r.x < size,
    {
        FieldCoordinate { x: value % size, y: value / size }
    }
}

/// A coordinate on the board and its position determine each other: the
/// position of a coordinate on the board is below `size * size`, and
/// converting it back gives the coordinate.
pub proof fn lemma_index_round_trip(c: FieldCoordinate, size: int)
    requires
        c.in_range(size),
    ensures
        0 <= c.index(size) < size * size,
        FieldCoordinate::at(c.index(size), size) == c,
{
    assert(c.y * size + c.x < size * size) by (nonlinear_arith)
        requires
            0 <= c.x < size,
            0 <= c.y < size,
    ;
    assert(c.y * size >= 0) by (nonlinear_arith)
        requires
            0 <= c.y,
            0 < size,
    ;
    lemma_fundamental_div_mod_converse(c.index(size), size, c.y as int, c.x as int);
}

/// Every position below `size * size` is the position of exactly one
/// coordinate on the board.
pub proof fn lemma_at_round_trip(value: int, size: int)
    requires
        0 <= value < size * size <= usize::MAX,
        0 <= size,
    ensures
        FieldCoordinate::at(value, size).in_range(size),
        FieldCoordinate::at(value, size).index(size) == value,
{
    assert(0 < size <= size * size) by (nonlinear_arith)
        requires
            0 <= value < size * size,
            0 <= size,
    ;
    vstd::arithmetic::div_mod::lemma_fundamental_div_mod(value, size);
    vstd::arithmetic::div_mod::lemma_mod_bound(value, size);
    assert(0 <= value / size < size) by (nonlinear_arith)
        requires
            0 <= value < size * size,
            size > 0,
            value == size * (value / size) + value % size,
            0 <= value % size < size,
    ;
    assert(size * (value / size) == (value / size) * size) by (nonlinear_arith);
}

} // verus!
