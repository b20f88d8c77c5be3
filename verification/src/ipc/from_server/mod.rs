use vstd::prelude::*;
use crate::ipc::from_server::board_ipc::Board;
use crate::ipc::from_server::game_error_ipc::GameError;
use crate::ipc::from_server::game_result_ipc::GameResult;
use crate::ipc::player_assignment::PlayerAssignment;
use crate::player_symbol::PlayerSymbol;

pub mod board_ipc;
pub mod game_error_ipc;
pub mod game_result_ipc;

verus! {

/// What the server can tell a client.
#[derive(Debug)]
pub enum FromServer {
    PONG,
    GameCreated(u128),
    PlayerAssignment(PlayerAssignment),
    GameNotCreated,
    GameAlreadyCreated,
    Board(Board),
    MoveOk(GameResult),
    MoveErr(GameError),
    GameCrash,
    GameEnded(Option<PlayerSymbol>),
    EndOfTime(PlayerSymbol),
}

} // verus!
