//! A game that the server runs.

use vstd::prelude::*;
use crate::game::game_error::GameError;
use crate::game::game_result::GameResult;
use crate::game::{Game, GameView};
use crate::ipc::from_server::board_ipc::Board;
use crate::ipc::game_configuration::{
    from_secs, seconds, GameConfiguration, GameConfigurationView,
};
use crate::ipc::moves_history::{MovesHistory, MovesHistoryView};
use crate::ipc::player_assignment::{PlayerAssignment, PlayerAssignmentView};
use crate::player_move::Move;
use crate::player_symbol::PlayerSymbol;
use crate::server::timer::{Timer, TimerView};

verus! {

/// A game that the server runs: the game itself with its identifier, the
/// symbols of the players, the clocks and the moves made so far.
#[derive(Debug)]
pub struct GameManager {
    uuid: u128,
    game: Game,
    timer: Timer,
    player_assignment: PlayerAssignment,
    history: MovesHistory,
}

/// A running game as a mathematical value.
pub struct GameManagerView {
    pub uuid: u128,
    pub game: GameView,
    pub timer: TimerView,
    pub player_assignment: PlayerAssignmentView,
    pub history: MovesHistoryView,
}

impl View for GameManager {
    type V = GameManagerView;

    closed spec fn view(&self) -> GameManagerView {
        GameManagerView {
            uuid: self.uuid,
            game: self.game@,
            timer: self.timer@,
            player_assignment: self.player_assignment@,
            history: self.history@,
        }
    }
}

impl GameManagerView {
    /// The game with identifier `uuid` that is set up as `configuration`
    /// says, before any move: the board has the side that it names, both
    /// clocks show the time that it gives the players, and the player that
    /// it names plays X.
    pub open spec fn fresh(uuid: u128, configuration: GameConfigurationView) -> GameManagerView {
        GameManagerView {
            uuid,
            game: GameView::fresh(configuration.size),
            timer: TimerView {
                based_time: configuration.based_time,
                increment: configuration.increment,
                player1_time: configuration.based_time,
                player2_time: configuration.based_time,
            },
            player_assignment: PlayerAssignmentView::of(configuration.first_player),
            history: MovesHistoryView {
                game_uuid: uuid,
                board_size: configuration.size,
                moves: Seq::empty(),
                durations: Seq::empty(),
            },
        }
    }
}

impl GameManager {
    /// What holds of every running game: its game is well formed.
    pub closed spec fn wf(&self) -> bool {
        self.game.wf()
    }

    /// Whether the machine can hold a game on a board of side `size`: it can
    /// count its cells, and one and a half times its side.
    pub open spec fn fits(size: nat) -> bool {
        size * size <= usize::MAX && size + size / 2 <= usize::MAX
    }

    pub fn new(uuid: u128, game_configuration: &GameConfiguration) -> (r: Self)
        requires
            Self::fits(game_configuration@.size),
        ensures
            r.wf(),
            r@ == GameManagerView::fresh(uuid, game_configuration@),
    {
        Self {
            uuid,
            game: Game::new(game_configuration.size()),
            timer: Timer::started(game_configuration.based_time(), game_configuration.increment()),
            player_assignment: PlayerAssignment::new(*game_configuration.first_player()),
            history: MovesHistory::new(uuid, game_configuration.size()),
        }
    }

    /// The game as `new` sets it up, where the machine can hold it.
    pub fn try_new(uuid: u128, game_configuration: &GameConfiguration) -> (r: Option<Self>)
        ensures
            r is Some == Self::fits(game_configuration@.size),
            r matches Some(manager) ==> manager.wf() && manager@ == GameManagerView::fresh(
                uuid,
                game_configuration@,
            ),
    {
        let size = game_configuration.size();
        if size.checked_mul(size).is_none() || size.checked_add(size / 2).is_none() {
            return None;
        }
        Some(Self::new(uuid, game_configuration))
    }

    pub fn player_assignment(&self) -> (r: PlayerAssignment)
        ensures
            r@ == self@.player_assignment,
    {
        self.player_assignment
    }

    /// Makes the move of `player` in the game and, where the game accepts
    /// it, takes it up in the history of moves, with no time taken.
    pub fn make_move(&mut self, player: PlayerSymbol, player_move: Move) -> (r: Result<
        GameResult,
        GameError,
    >)
        requires
            old(self).wf(),
        ensures
            final(self).wf(),
            final(self)@.uuid == old(self)@.uuid,
            final(self)@.timer == old(self)@.timer,
            final(self)@.player_assignment == old(self)@.player_assignment,
            r matches Err(e) ==> old(self)@.game.move_error(player_move, player) == Some(e)
                && final(self)@ == old(self)@,
            r matches Ok(result) ==> {
                &&& old(self)@.game.move_error(player_move, player) is None
                &&& old(self)@.game.moved(final(self)@.game, result, player_move, player)
                &&& final(self)@.history.game_uuid == old(self)@.history.game_uuid
                &&& final(self)@.history.board_size == old(self)@.history.board_size
                &&& final(self)@.history.moves == old(self)@.history.moves.push(
                    (player_move, player),
                )
                &&& final(self)@.history.durations == old(self)@.history.durations.push(
                    seconds(0),
                )
            },
    {
        let result = match self.game.player_move(player_move, player) {
            Ok(result) => result,
            Err(e) => {
                return Err(e);
            },
        };
        self.history.add_move(player_move, from_secs(0), player);
        Ok(result)
    }

    pub fn get_board(&self) -> (r: Board)
        requires
            self.wf(),
        ensures
            r.shows(self@.game.board),
    {
        Board::shown(self.game.get_board())
    }

    /// Ends the game with the winner `player`, or with none, and returns
    /// what it was given.
    pub fn set_winner(&mut self, player: Option<PlayerSymbol>) -> (r: Option<PlayerSymbol>)
        ensures
            r == player,
            old(self).wf() ==> final(self).wf(),
            final(self)@ == (GameManagerView {
                game: GameView {
                    board: old(self)@.game.board,
                    status: old(self)@.game.status.ended(player),
                },
                ..old(self)@
            }),
    {
        let _ = self.game.end_game(player);
        player
    }

    pub fn get_game_id(&self) -> (r: u128)
        ensures
            r == self@.uuid,
    {
        self.uuid
    }

    /// What is left to do when a game ends: nothing.
    pub fn end_game(&mut self)
        ensures
            *final(self) == *old(self),
    {
    }

    /// The moves made so far.
    pub fn history(&self) -> (r: &MovesHistory)
        ensures
            r@ == self@.history,
    {
        &self.history
    }
}

} // verus!
