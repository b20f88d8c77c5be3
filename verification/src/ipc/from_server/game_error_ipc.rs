use vstd::prelude::*;
use crate::game::game_error;

verus! {

/// Why the game refused a move, as a client is told.
#[derive(Debug, Clone, Copy, PartialEq, Eq, Structural)]
pub enum GameError {
    PlayerTurnError,
    MoveTypeError,
    MoveAfterEnd,
    MakingMoveError,
}

impl GameError {
    /// What a client is told of a refusal: its kind.
    pub open spec fn of(value: game_error::GameError) -> GameError {
        match value {
            game_error::GameError::PlayerTurnError => GameError::PlayerTurnError,
            game_error::GameError::MoveTypeError => GameError::MoveTypeError,
            game_error::GameError::MoveAfterEnd => GameError::MoveAfterEnd,
            game_error::GameError::MakingMoveError(_) => GameError::MakingMoveError,
        }
    }
}

impl From<&game_error::GameError> for GameError {
    fn from(value: &game_error::GameError) -> (r: Self) {
        match value {
            game_error::GameError::PlayerTurnError => GameError::PlayerTurnError,
            game_error::GameError::MoveTypeError => GameError::MoveTypeError,
            game_error::GameError::MoveAfterEnd => GameError::MoveAfterEnd,
            game_error::GameError::MakingMoveError(_) => GameError::MakingMoveError,
        }
    }
}

impl vstd::std_specs::convert::FromSpecImpl<&game_error::GameError> for GameError {
    open spec fn obeys_from_spec() -> bool {
        true
    }

    open spec fn from_spec(value: &game_error::GameError) -> GameError {
        GameError::of(*value)
    }
}

} // verus!
