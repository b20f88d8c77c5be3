use vstd::prelude::*;
use crate::ipc::game_configuration::GameConfiguration;
use crate::player_move::Move;
use crate::player_symbol::PlayerSymbol;

verus! {

/// What a client can ask of the server.
#[derive(Debug)]
pub enum ToServer {
    CreateGame(GameConfiguration),
    PING,
    EndConnection,
    GetPlayerAssignment,
    MakeMove((PlayerSymbol, Move)),
    EndGame(Option<PlayerSymbol>),
}

} // verus!
