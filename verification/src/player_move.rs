//! The moves of a player.

use vstd::prelude::*;
use crate::field_coordinate::FieldCoordinate;
use crate::move_type::MoveType;

verus! {

/// A move of a player: a joint mark on two cells, or the resolution of a cycle
/// starting at one of its cells with one of that cell's candidate turns.
#[derive(Debug, Copy, Clone, PartialEq, Eq, Structural)]
pub enum Move {
    Mark { field1: FieldCoordinate, field2: FieldCoordinate },
    Collapse { field: FieldCoordinate, index: usize },
}

impl Move {
    /// The kind of the move.
    pub open spec fn kind(self) -> MoveType {
        match self {
            Move::Mark { .. } => MoveType::Mark,
            Move::Collapse { .. } => MoveType::Collapse,
        }
    }
}

} // verus!
