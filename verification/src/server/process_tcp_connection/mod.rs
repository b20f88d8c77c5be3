//! One connection of a client: what each message leads to.

use vstd::prelude::*;
use crate::ipc::from_server::FromServer;
use crate::ipc::game_configuration::GameConfiguration;
use crate::ipc::to_server::ToServer;
use crate::server::game_manager::{GameManager, GameManagerView};
use crate::server::process_tcp_connection::handle_message::{
    assigned, ended, handle_end_game, handle_get_player_assignment, handle_make_move, handle_ping,
    moved, reply, running, sound, Answer, Flow,
};

pub mod handle_message;

verus! {

/// What a message leads to: an answer, or the wish for a new game, which
/// needs an identifier that no other game has.
#[derive(Debug)]
pub enum Handled {
    Answered(Answer),
    NeedsGame(GameConfiguration),
}

/// Whether `handled` is what the message `message` leads to, after which
/// the connection is `after`.
///
/// A ping is answered; the end of the connection ends it in good order.
/// The wish for a game is passed on where the connection has no game, and
/// refused where it has one. The other messages are answered as their
/// handlers say.
pub open spec fn processed(
    before: Option<GameManagerView>,
    message: ToServer,
    handled: Handled,
    after: Option<GameManagerView>,
) -> bool {
    match message {
        ToServer::PING => {
            &&& handled matches Handled::Answered(answer)
            &&& answer.only(FromServer::PONG)
            &&& after == before
        },
        ToServer::EndConnection => {
            &&& handled matches Handled::Answered(answer)
            &&& answer.has(0, Flow::Stop)
            &&& after == before
        },
        ToServer::CreateGame(wanted) => {
            &&& after == before
            &&& before is Some ==> {
                &&& handled matches Handled::Answered(answer)
                &&& answer.only(FromServer::GameAlreadyCreated)
            }
            &&& before is None ==> {
                &&& handled matches Handled::NeedsGame(configuration)
                &&& configuration@ == wanted@
            }
        },
        ToServer::GetPlayerAssignment => {
            &&& handled matches Handled::Answered(answer)
            &&& assigned(before, answer)
            &&& after == before
        },
        ToServer::MakeMove(made) => {
            &&& handled matches Handled::Answered(answer)
            &&& moved(before, made.1, made.0, answer, after)
        },
        ToServer::EndGame(winner) => {
            &&& handled matches Handled::Answered(answer)
            &&& ended(before, winner, answer, after)
        },
    }
}

/// Answers a message of the client, or asks for an identifier where the
/// client wants a game and has none yet. `game_manager` is the game that the
/// client has created over the connection, if any.
pub fn process(game_manager: &mut Option<GameManager>, message: ToServer) -> (r: Handled)
    requires
        sound(*old(game_manager)),
    ensures
        sound(*final(game_manager)),
        processed(running(*old(game_manager)), message, r, running(*final(game_manager))),
{
    match message {
        ToServer::CreateGame(game_configuration) => {
            if game_manager.is_some() {
                Handled::Answered(reply(FromServer::GameAlreadyCreated))
            } else {
                Handled::NeedsGame(game_configuration)
            }
        },
        ToServer::PING => Handled::Answered(handle_ping()),
        ToServer::EndConnection => Handled::Answered(
            Answer { replies: Vec::new(), flow: Flow::Stop },
        ),
        ToServer::GetPlayerAssignment => Handled::Answered(
            handle_get_player_assignment(game_manager),
        ),
        ToServer::MakeMove((player_symbol, player_move)) => Handled::Answered(
            handle_make_move(game_manager, player_symbol, player_move),
        ),
        ToServer::EndGame(player_symbol) => Handled::Answered(
            handle_end_game(game_manager, player_symbol),
        ),
    }
}

} // verus!
