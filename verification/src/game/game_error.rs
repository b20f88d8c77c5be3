//! The refusals of the game.

use vstd::prelude::*;
use crate::board::board_error::BoardError;

verus! {

/// Why the game refused a move.
#[derive(Debug, PartialEq, Eq, Structural, Copy, Clone)]
pub enum GameError {
    /// It is the other player's turn.
    PlayerTurnError,
    /// The game expects the other kind of move.
    MoveTypeError,
    /// The game has ended.
    MoveAfterEnd,
    /// The board refused the move, for the reason given.
    MakingMoveError(BoardError),
}

} // verus!
