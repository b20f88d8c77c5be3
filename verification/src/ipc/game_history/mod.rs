//! The history of a game: its moves played again on a new board.

use vstd::prelude::*;
use crate::game::game_result::GameResult;
use crate::game::{Game, GameView};
use crate::ipc::from_server::board_ipc::Board;
use crate::ipc::game_history::game_history_error::GameHistoryError;
use crate::ipc::moves_history::{MovesHistory, MovesHistoryView};
use crate::player_move::Move;
use crate::player_symbol::PlayerSymbol;
use std::time::Duration;

pub mod game_history_error;

verus! {

/// A game that was played: its moves with the time each took, and the cells
/// of the board after each move.
#[derive(Debug)]
pub struct GameHistory {
    game_uuid: u128,
    moves: Vec<(Move, PlayerSymbol)>,
    durations: Vec<Duration>,
    boards: Vec<Board>,
}

/// Whether the game `after` follows the game `before` by the move
/// `player_move` of `symbol`, which the game accepts.
pub open spec fn follows(before: GameView, after: GameView, player_move: Move, symbol: PlayerSymbol)
    -> bool {
    before.move_error(player_move, symbol) is None && exists|result: GameResult| #[trigger]
        before.moved(after, result, player_move, symbol)
}

/// Whether `moves` lead through `games`, one game after each move, from a
/// game on a board of side `size` in which no move was made.
pub open spec fn played(size: nat, moves: Seq<(Move, PlayerSymbol)>, games: Seq<GameView>) -> bool {
    &&& games.len() == moves.len() + 1
    &&& games[0] == GameView::fresh(size)
    &&& forall|i: int|
        0 <= i < moves.len() ==> follows(
            games[i],
            games[i + 1],
            (#[trigger] moves[i]).0,
            moves[i].1,
        )
}

impl GameHistory {
    /// The identifier of the game.
    pub closed spec fn spec_game_uuid(&self) -> u128 {
        self.game_uuid
    }

    /// The moves of the game.
    pub closed spec fn spec_moves(&self) -> Seq<(Move, PlayerSymbol)> {
        self.moves@
    }

    /// The time that each move took.
    pub closed spec fn spec_durations(&self) -> Seq<Duration> {
        self.durations@
    }

    /// The cells of the board after each move.
    pub closed spec fn spec_boards(&self) -> Seq<Board> {
        self.boards@
    }

    /// Whether the boards of the history show the boards of `games` after
    /// each move.
    pub open spec fn shows(&self, games: Seq<GameView>) -> bool {
        &&& self.spec_boards().len() + 1 == games.len()
        &&& forall|i: int|
            0 <= i < self.spec_boards().len() ==> (#[trigger] self.spec_boards()[i]).shows(
                games[i + 1].board,
            )
    }

    /// Whether `r` is what comes of playing the moves of `value` on a new
    /// board.
    ///
    /// Where it is a history, the history has the identifier, the moves and
    /// the times of `value`, and the moves lead through games whose boards it
    /// shows, one after each move. Where it is an error, the board is too
    /// large for the machine to count its cells, or the moves before one of
    /// the moves lead to a game that refuses that move.
    pub open spec fn replayed(value: MovesHistoryView, r: Result<GameHistory, GameHistoryError>)
        -> bool {
        match r {
            Ok(history) => {
                &&& history.spec_game_uuid() == value.game_uuid
                &&& history.spec_moves() == value.moves
                &&& history.spec_durations() == value.durations
                &&& exists|games: Seq<GameView>|
                    played(value.board_size, value.moves, games) && #[trigger] history.shows(games)
            },
            Err(_) => value.board_size * value.board_size > usize::MAX || exists|
                k: int,
                games: Seq<GameView>,
            |
                0 <= k < value.moves.len() && #[trigger] played(
                    value.board_size,
                    value.moves.take(k),
                    games,
                ) && games[k].move_error(value.moves[k].0, value.moves[k].1) is Some,
        }
    }

    /// Plays the moves of `value` on a new board and keeps the cells after
    /// each move. It fails where the board is too large for the machine to
    /// count its cells, or one of the moves is refused.
    #[verifier::rlimit(40)]
    pub fn replay(value: &MovesHistory) -> (r: Result<Self, GameHistoryError>)
        ensures
            Self::replayed(value@, r),
    {
        let size = value.board_size();
        if size.checked_mul(size).is_none() {
            return Err(GameHistoryError {  });
        }
        let mut game = Game::new(size);
        let ghost mut games: Seq<GameView> = seq![game@];
        let moves = value.moves();
        let durations = value.durations();
        let mut boards: Vec<Board> = Vec::new();
        let mut kept_moves: Vec<(Move, PlayerSymbol)> = Vec::new();
        let mut i: usize = 0;
        proof {
            assert(moves@.take(0) =~= Seq::<(Move, PlayerSymbol)>::empty());
        }
        while i < moves.len()
            invariant
                i <= moves.len(),
                moves@ == value@.moves,
                size == value@.board_size,
                game.wf(),
                played(size as nat, moves@.take(i as int), games),
                games[i as int] == game@,
                boards@.len() == i,
                forall|k: int| 0 <= k < i ==> (#[trigger] boards@[k]).shows(games[k + 1].board),
                kept_moves@ == moves@.take(i as int),
            decreases moves.len() - i,
        {
            let (player_move, player) = moves[i];
            let ghost before = game@;
            match game.player_move(player_move, player) {
                Err(_) => {
                    return Err(GameHistoryError {  });
                },
                Ok(result) => {
                    proof {
                        let longer = games.push(game@);
                        let sofar = moves@.take(i + 1);
                        assert(before.moved(game@, result, player_move, player));
                        assert(follows(before, game@, player_move, player));
                        assert forall|k: int| 0 <= k < sofar.len() implies follows(
                            longer[k],
                            longer[k + 1],
                            (#[trigger] sofar[k]).0,
                            sofar[k].1,
                        ) by {
                            if k < i {
                                assert(moves@.take(i as int)[k] == sofar[k]);
                                assert(follows(
                                    games[k],
                                    games[k + 1],
                                    moves@.take(i as int)[k].0,
                                    moves@.take(i as int)[k].1,
                                ));
                            }
                        }
                        games = longer;
                    }
                },
            }
            boards.push(Board::shown(game.get_board()));
            kept_moves.push((player_move, player));
            proof {
                assert(kept_moves@ =~= moves@.take(i + 1));
            }
            i += 1;
        }
        let mut kept_durations: Vec<Duration> = Vec::new();
        let mut j: usize = 0;
        while j < durations.len()
            invariant
                j <= durations.len(),
                kept_durations@ == durations@.take(j as int),
            decreases durations.len() - j,
        {
            kept_durations.push(durations[j]);
            proof {
                assert(kept_durations@ =~= durations@.take(j + 1));
            }
            j += 1;
        }
        let history = Self {
            game_uuid: value.game_uuid(),
            moves: kept_moves,
            durations: kept_durations,
            boards,
        };
        proof {
            assert(moves@.take(i as int) =~= moves@);
            assert(durations@.take(j as int) =~= durations@);
            assert(history.shows(games));
        }
        Ok(history)
    }

    pub fn game_uuid(&self) -> (r: u128)
        ensures
            r == self.spec_game_uuid(),
    {
        self.game_uuid
    }

    pub fn moves(&self) -> (r: &Vec<(Move, PlayerSymbol)>)
        ensures
            r@ == self.spec_moves(),
    {
        &self.moves
    }

    pub fn durations(&self) -> (r: &Vec<Duration>)
        ensures
            r@ == self.spec_durations(),
    {
        &self.durations
    }

    pub fn boards(&self) -> (r: &Vec<Board>)
        ensures
            r@ == self.spec_boards(),
    {
        &self.boards
    }
}

impl TryFrom<&MovesHistory> for GameHistory {
    type Error = GameHistoryError;

    fn try_from(value: &MovesHistory) -> (r: Result<Self, Self::Error>)
        ensures
            GameHistory::replayed(value@, r),
    {
        GameHistory::replay(value)
    }
}

/// The conversion makes copies, so its result is described by what it
/// holds, as `replay` does, and not as a value.
impl vstd::std_specs::convert::TryFromSpecImpl<&MovesHistory> for GameHistory {
    open spec fn obeys_try_from_spec() -> bool {
        false
    }

    open spec fn try_from_spec(value: &MovesHistory) -> Result<GameHistory, GameHistoryError> {
        arbitrary()
    }
}

} // verus!
