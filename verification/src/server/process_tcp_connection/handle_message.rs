//! The answers to the messages of a client.

use vstd::prelude::*;
use crate::game::game_error;
use crate::game::game_result;
use crate::ipc::from_server::game_error_ipc::GameError;
use crate::ipc::from_server::game_result_ipc::GameResult;
use crate::ipc::from_server::FromServer;
use crate::ipc::game_configuration::{seconds, GameConfiguration, GameConfigurationView};
use crate::ipc::moves_history::MovesHistoryView;
use crate::player_move::Move;
use crate::player_symbol::PlayerSymbol;
use crate::server::game_manager::{GameManager, GameManagerView};
use crate::server::server_error::ServerError;

verus! {

/// What a connection does after a message is answered.
#[derive(Debug, Clone, Copy, PartialEq, Eq, Structural)]
pub enum Flow {
    /// It waits for the next message.
    Continue,
    /// It ends in good order.
    Stop,
    /// It ends with an error.
    Fail(ServerError),
}

/// The answer to a message: what the client is told, in this order, and
/// what the connection does then.
#[derive(Debug)]
pub struct Answer {
    pub replies: Vec<FromServer>,
    pub flow: Flow,
}

impl Answer {
    /// Whether the answer tells the client `told` things and goes on as
    /// `flow` says.
    pub open spec fn has(self, told: nat, flow: Flow) -> bool {
        self.replies@.len() == told && self.flow == flow
    }

    /// Whether the answer is the one thing `reply` and the connection waits
    /// for the next message.
    pub open spec fn only(self, reply: FromServer) -> bool {
        self.has(1, Flow::Continue) && self.replies@[0] == reply
    }
}

/// The answer to a move that the game refused: the client is told the kind
/// of the refusal and the connection goes on, but where the board refused
/// the move, the client is told of a crash and the connection fails.
pub open spec fn refused(answer: Answer, e: game_error::GameError) -> bool {
    match e {
        game_error::GameError::MakingMoveError(_) => answer.has(
            1,
            Flow::Fail(ServerError::GameError),
        ) && answer.replies@[0] == FromServer::GameCrash,
        _ => answer.only(FromServer::MoveErr(GameError::of(e))),
    }
}

/// The answer to a move that the game accepted with `result`, after which
/// the running game is `after`: the client is told the result and shown
/// the board, and the connection goes on unless the game has ended.
pub open spec fn accepted(answer: Answer, result: game_result::GameResult, after: GameManagerView)
    -> bool {
    &&& answer.has(
        2,
        if result is GameEnd {
            Flow::Stop
        } else {
            Flow::Continue
        },
    )
    &&& answer.replies@[0] matches FromServer::MoveOk(told)
    &&& told@ == GameResult::of(result)
    &&& answer.replies@[1] matches FromServer::Board(shown)
    &&& shown.shows(after.game.board)
}

/// The game that runs over a connection, if the client has created one, as
/// a mathematical value.
pub open spec fn running(game_manager: Option<GameManager>) -> Option<GameManagerView> {
    match game_manager {
        Some(manager) => Some(manager@),
        None => None,
    }
}

/// What holds of the game of every connection: if there is one, it is well
/// formed.
pub open spec fn sound(game_manager: Option<GameManager>) -> bool {
    game_manager matches Some(manager) ==> manager.wf()
}

/// The answer that is one thing told, after which the connection waits
/// for the next message.
pub fn reply(told: FromServer) -> (r: Answer)
    ensures
        r.has(1, Flow::Continue),
        r.replies@[0] == told,
{
    let mut replies: Vec<FromServer> = Vec::new();
    replies.push(told);
    Answer { replies, flow: Flow::Continue }
}

pub fn handle_ping() -> (r: Answer)
    ensures
        r.only(FromServer::PONG),
{
    reply(FromServer::PONG)
}

/// Whether `answer` is the answer to the wish for a game with the
/// identifier `uuid` that is set up as `configuration` says, after which
/// the connection is `after`.
///
/// A connection that has a game keeps it and tells the client so. Else
/// the game is set up, the client is told its identifier and shown its
/// board; but where the machine cannot hold a board of that side, no
/// game is set up and the client is told so.
pub open spec fn created(
    before: Option<GameManagerView>,
    configuration: GameConfigurationView,
    uuid: u128,
    answer: Answer,
    after: Option<GameManagerView>,
) -> bool {
    if before is Some {
        after == before && answer.only(FromServer::GameAlreadyCreated)
    } else if !GameManager::fits(configuration.size) {
        after == before && answer.only(FromServer::GameNotCreated)
    } else {
        let game = GameManagerView::fresh(uuid, configuration);
        &&& after == Some(game)
        &&& answer.has(2, Flow::Continue)
        &&& answer.replies@[0] == FromServer::GameCreated(uuid)
        &&& answer.replies@[1] matches FromServer::Board(shown)
        &&& shown.shows(game.game.board)
    }
}

pub fn handle_create_game(
    game_manager: &mut Option<GameManager>,
    game_configuration: GameConfiguration,
    uuid: u128,
) -> (r: Answer)
    requires
        sound(*old(game_manager)),
    ensures
        sound(*final(game_manager)),
        created(
            running(*old(game_manager)),
            game_configuration@,
            uuid,
            r,
            running(*final(game_manager)),
        ),
{
    if game_manager.is_some() {
        return reply(FromServer::GameAlreadyCreated);
    }
    match GameManager::try_new(uuid, &game_configuration) {
        Some(game_manager_created) => {
            let mut replies: Vec<FromServer> = Vec::new();
            replies.push(FromServer::GameCreated(uuid));
            replies.push(FromServer::Board(game_manager_created.get_board()));
            *game_manager = Some(game_manager_created);
            Answer { replies, flow: Flow::Continue }
        },
        None => reply(FromServer::GameNotCreated),
    }
}

/// Whether `answer` is the answer to the question which symbols the
/// players have: the assignment of the game, or that there is no game.
pub open spec fn assigned(before: Option<GameManagerView>, answer: Answer) -> bool {
    match before {
        None => answer.only(FromServer::GameNotCreated),
        Some(game) => {
            &&& answer.has(1, Flow::Continue)
            &&& answer.replies@[0] matches FromServer::PlayerAssignment(assignment)
            &&& assignment@ == game.player_assignment
        },
    }
}

pub fn handle_get_player_assignment(game_manager: &Option<GameManager>) -> (r: Answer)
    ensures
        assigned(running(*game_manager), r),
{
    match game_manager {
        Some(game_manager) => reply(
            FromServer::PlayerAssignment(game_manager.player_assignment()),
        ),
        None => reply(FromServer::GameNotCreated),
    }
}

/// Whether `answer` is the answer to the move `player_move` of
/// `player_symbol`, after which the connection is `after`.
///
/// Without a game the client is told that there is none. A move that the
/// game refuses changes nothing. A move that it accepts is made and
/// taken up in the history of moves.
pub open spec fn moved(
    before: Option<GameManagerView>,
    player_move: Move,
    player_symbol: PlayerSymbol,
    answer: Answer,
    after: Option<GameManagerView>,
) -> bool {
    match before {
        None => after == before && answer.only(FromServer::GameNotCreated),
        Some(game) => match game.game.move_error(player_move, player_symbol) {
            Some(e) => after == before && refused(answer, e),
            None => {
                &&& after matches Some(next)
                &&& next.uuid == game.uuid
                &&& next.player_assignment == game.player_assignment
                &&& next.history.moves == game.history.moves.push((player_move, player_symbol))
                &&& exists|result: game_result::GameResult|
                    #![trigger game.game.moved(next.game, result, player_move, player_symbol)]
                    game.game.moved(next.game, result, player_move, player_symbol) && accepted(
                        answer,
                        result,
                        next,
                    )
            },
        },
    }
}

pub fn handle_make_move(
    game_manager: &mut Option<GameManager>,
    player_symbol: PlayerSymbol,
    player_move: Move,
) -> (r: Answer)
    requires
        sound(*old(game_manager)),
    ensures
        sound(*final(game_manager)),
        moved(
            running(*old(game_manager)),
            player_move,
            player_symbol,
            r,
            running(*final(game_manager)),
        ),
{
    let mut manager = match game_manager.take() {
        Some(manager) => manager,
        None => {
            return reply(FromServer::GameNotCreated);
        },
    };
    let ghost game = manager@;
    let answer = match manager.make_move(player_symbol, player_move) {
        Ok(result) => {
            let mut replies: Vec<FromServer> = Vec::new();
            replies.push(FromServer::MoveOk(GameResult::told(&result)));
            replies.push(FromServer::Board(manager.get_board()));
            let flow = match result {
                game_result::GameResult::GameEnd(_) => Flow::Stop,
                _ => Flow::Continue,
            };
            let answer = Answer { replies, flow };
            proof {
                assert(game.game.moved(manager@.game, result, player_move, player_symbol));
                assert(accepted(answer, result, manager@));
            }
            answer
        },
        Err(e) => match e {
            game_error::GameError::MakingMoveError(_) => {
                let mut replies: Vec<FromServer> = Vec::new();
                replies.push(FromServer::GameCrash);
                Answer { replies, flow: Flow::Fail(ServerError::GameError) }
            },
            _ => reply(FromServer::MoveErr(GameError::from(&e))),
        },
    };
    *game_manager = Some(manager);
    answer
}

/// Whether `answer` is the answer to the end of the game with `winner`,
/// after which the connection is `after`: the game is ended with that
/// winner, the client is told so, and the connection ends. Without a
/// game the client is told that there is none.
pub open spec fn ended(
    before: Option<GameManagerView>,
    winner: Option<PlayerSymbol>,
    answer: Answer,
    after: Option<GameManagerView>,
) -> bool {
    match before {
        None => after == before && answer.only(FromServer::GameNotCreated),
        Some(game) => {
            &&& answer.has(1, Flow::Stop)
            &&& answer.replies@[0] == FromServer::GameEnded(winner)
            &&& after matches Some(next)
            &&& next.game.board == game.game.board
            &&& next.game.status == game.game.status.ended(winner)
            &&& next.uuid == game.uuid
            &&& next.player_assignment == game.player_assignment
            &&& next.history == game.history
        },
    }
}

pub fn handle_end_game(game_manager: &mut Option<GameManager>, player_symbol: Option<PlayerSymbol>)
    -> (r: Answer)
    requires
        sound(*old(game_manager)),
    ensures
        sound(*final(game_manager)),
        ended(running(*old(game_manager)), player_symbol, r, running(*final(game_manager))),
{
    let mut manager = match game_manager.take() {
        Some(manager) => manager,
        None => {
            return reply(FromServer::GameNotCreated);
        },
    };
    let winner = manager.set_winner(player_symbol);
    manager.end_game();
    *game_manager = Some(manager);
    let mut replies: Vec<FromServer> = Vec::new();
    replies.push(FromServer::GameEnded(winner));
    Answer { replies, flow: Flow::Stop }
}

/// Whether the client has created a game over the connection, with what
/// the client is told where it has not.
pub fn check_is_game_created(game_manager: &Option<GameManager>) -> (r: (bool, Option<FromServer>))
    ensures
        r.0 == game_manager is Some,
        r.0 ==> r.1 is None,
        !r.0 ==> r.1 == Some(FromServer::GameNotCreated),
{
    if game_manager.is_none() {
        (false, Some(FromServer::GameNotCreated))
    } else {
        (true, None)
    }
}

} // verus!
