//! The refusals of the board.

use vstd::prelude::*;
use crate::field_coordinate::FieldCoordinate;

verus! {

/// Why the board refused a move.
#[derive(Debug, Clone, Copy, PartialEq, Eq, Structural)]
pub enum BoardErrorKind {
    /// The coordinate lies outside the board.
    OutOfRange,
    /// A joint mark names the same cell twice.
    SameCoordinates,
    /// The cell is already collapsed.
    AlreadyCollapsed,
    /// The turn has no slot in the cells.
    TurnOutOfRange,
    /// There is no cycle to resolve.
    NoCycle,
    /// The coordinate is not a cell of the cycle.
    NotInCycle,
    /// The turn is not among the candidates of the cell.
    IndexNotInCycle,
    /// Walking the cycle, a cell had no candidate turn left, or none that it
    /// recorded a symbol for.
    Unresolvable,
}

/// A refused move: the coordinate that the refusal is about, and the reason.
#[derive(Debug, Clone, Copy, PartialEq, Eq, Structural)]
pub struct BoardError {
    pub field_coordinate: FieldCoordinate,
    pub kind: BoardErrorKind,
}

impl BoardError {
    pub fn new(field_coordinate: FieldCoordinate, kind: BoardErrorKind) -> (r: Self)
        ensures
            r == (BoardError { field_coordinate, kind }),
    {
        BoardError { field_coordinate, kind }
    }
}

} // verus!
