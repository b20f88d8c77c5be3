//! The game: one board and the status of the game on it, behind one entry
//! point that checks whose turn it is and which kind of move is due.

use vstd::prelude::*;
use crate::board::board_error::BoardErrorKind;
use crate::board::{Board, BoardView};
use crate::cycle::view_of;
use crate::field_coordinate::FieldCoordinate;
use crate::game::game_error::GameError;
use crate::game::game_result::GameResult;
use crate::game_status::{GameStatus, GameStatusView};
use crate::move_type::MoveType;
use crate::player_move::Move;
use crate::player_symbol::PlayerSymbol;

pub mod game_error;
pub mod game_result;

verus! {

/// One match: a board and the status of the game on it.
#[derive(Debug)]
pub struct Game {
    board: Board,
    game_status: GameStatus,
}

/// A game as a mathematical value.
pub struct GameView {
    pub board: BoardView,
    pub status: GameStatusView,
}

impl GameView {
    /// A game on a board of side `size` in which no move was made.
    pub open spec fn fresh(size: nat) -> GameView {
        GameView { board: BoardView::fresh(size), status: GameStatusView::initial() }
    }

    /// Why a move of `symbol` is refused, if it is: the game has ended; else
    /// it is the other player's turn; else the other kind of move is
    /// expected; else the board refuses the move.
    pub open spec fn move_error(self, player_move: Move, symbol: PlayerSymbol) -> Option<
        GameError,
    > {
        if self.status.is_end {
            Some(GameError::MoveAfterEnd)
        } else if self.status.player_turn != symbol {
            Some(GameError::PlayerTurnError)
        } else if self.status.move_type != player_move.kind() {
            Some(GameError::MoveTypeError)
        } else {
            let refused = match player_move {
                Move::Mark { field1, field2 } => self.board.mark_error(
                    field1,
                    field2,
                    self.status.turn as usize,
                ),
                Move::Collapse { field, index } => self.board.collapse_error(field, index),
            };
            match refused {
                Some(e) => Some(GameError::MakingMoveError(e)),
                None => None,
            }
        }
    }

    /// Whether `after` and `result` are the game and the result after an
    /// accepted joint mark of `symbol` on `field1` and `field2`.
    ///
    /// The board is the board after the mark in the game's turn. Where the
    /// mark closed a cycle, the result is `NextTurnCycle` and carries it;
    /// where it closed none, the result is `NextTurn`. The status is advanced
    /// accordingly.
    pub open spec fn marked(
        self,
        after: GameView,
        result: GameResult,
        field1: FieldCoordinate,
        field2: FieldCoordinate,
        symbol: PlayerSymbol,
    ) -> bool {
        &&& self.board.marked(
            after.board,
            field1,
            field2,
            symbol,
            self.status.turn as usize,
            result.cycle(),
        )
        &&& after.status == self.status.advanced(result.cycle() is Some)
        &&& result is NextTurn || result is NextTurnCycle
    }

    /// Whether `after` and `result` are the game and the result after an
    /// accepted collapse that starts at `field` with turn `index`.
    ///
    /// The board is the board after the collapse, and a mark is expected
    /// next. Where a line of the board is complete, the game has ended: the
    /// winner is the symbol with more complete lines, and there is none
    /// where both have as many. Where no line is complete, the game goes on.
    pub open spec fn collapsed(
        self,
        after: GameView,
        result: GameResult,
        field: FieldCoordinate,
        index: usize,
    ) -> bool {
        let lines = after.board.lines();
        &&& self.board.resolved(after.board, field, index)
        &&& if lines.any() {
            result == GameResult::GameEnd(lines.winner()) && after.status == self.status.advanced(
                false,
            ).ended(lines.winner())
        } else {
            result == GameResult::TurnAfterCollapse && after.status == self.status.advanced(false)
        }
    }

    /// Whether `after` and `result` are the game and the result after the
    /// accepted move `player_move` of `symbol`.
    pub open spec fn moved(
        self,
        after: GameView,
        result: GameResult,
        player_move: Move,
        symbol: PlayerSymbol,
    ) -> bool {
        match player_move {
            Move::Mark { field1, field2 } => self.marked(after, result, field1, field2, symbol),
            Move::Collapse { field, index } => self.collapsed(after, result, field, index),
        }
    }

    /// What holds of every game beside the well-formedness of its board:
    /// the links of the board are the joint marks of earlier turns, each of
    /// its own turn; the board accounts for every mark but the one whose
    /// cycle waits; and while a collapse is expected, a cycle waits that can
    /// be walked.
    pub open spec fn sound(self) -> bool {
        &&& self.board.turns_before(self.status.turn)
        &&& self.status.turn <= self.board.accounted() + if self.status.move_type
            == MoveType::Collapse {
            1nat
        } else {
            0nat
        }
        &&& self.status.move_type == MoveType::Collapse ==> self.board.cycle is Some
            && self.board.cycle_sound()
    }

    /// While a mark is expected and an entangled cell is left to mark, the
    /// turn of the game has a slot in the cells: no mark is refused for its
    /// turn.
    pub proof fn lemma_turn_fits(self, field1: FieldCoordinate, field2: FieldCoordinate)
        requires
            self.board.wf(),
            self.sound(),
            self.status.move_type == MoveType::Mark,
        ensures
            field1.in_range(self.board.size as int) && self.board.cell(field1) is Entangled
                ==> self.status.turn < self.board.area(),
            self.board.mark_error(field1, field2, self.status.turn as usize) matches Some(e)
                ==> e.kind != BoardErrorKind::TurnOutOfRange,
    {
        if field1.in_range(self.board.size as int) && self.board.cell(field1) is Entangled {
            self.board.lemma_accounted_fits(field1);
        }
    }

    /// While a collapse is expected, the collapse that the player to move
    /// starts at a cell of the waiting cycle, with a candidate turn of that
    /// cell, is accepted.
    pub proof fn lemma_collapse_owed(self, field: FieldCoordinate, index: usize)
        requires
            self.board.wf(),
            self.sound(),
            !self.status.is_end,
            self.status.move_type == MoveType::Collapse,
            self.board.cycle matches Some(c) ==> c.coordinates.contains(field)
                && c.indexes[c.position(field)].contains(index),
        ensures
            self.move_error(Move::Collapse { field, index }, self.status.player_turn) is None,
    {
        self.board.lemma_sound_cycle_resolves(field, index);
    }

    /// Whether the board may refuse a move of the kind of `player_move` in
    /// a game for the reason `kind`: a mark for a coordinate off the board,
    /// for the same cell named twice and for a collapsed cell; a collapse for
    /// a coordinate that is no cell of the waiting cycle and for a turn that
    /// is no candidate of the cell.
    pub open spec fn may_refuse(player_move: Move, kind: BoardErrorKind) -> bool {
        match player_move {
            Move::Mark { .. } => kind == BoardErrorKind::OutOfRange || kind
                == BoardErrorKind::SameCoordinates || kind == BoardErrorKind::AlreadyCollapsed,
            Move::Collapse { .. } => kind == BoardErrorKind::NotInCycle || kind
                == BoardErrorKind::IndexNotInCycle,
        }
    }

    /// In a game the board refuses a move only for the move itself: never a
    /// mark for its turn, and never a collapse for a cycle that is missing or
    /// cannot be walked.
    pub proof fn lemma_refusals(self, player_move: Move, symbol: PlayerSymbol)
        requires
            self.board.wf(),
            self.sound(),
        ensures
            self.move_error(player_move, symbol) matches Some(GameError::MakingMoveError(e))
                ==> Self::may_refuse(player_move, e.kind),
    {
        if self.move_error(player_move, symbol) matches Some(GameError::MakingMoveError(e)) {
            match player_move {
                Move::Mark { field1, field2 } => {
                    self.lemma_turn_fits(field1, field2);
                },
                Move::Collapse { field, index } => {
                    let c = self.board.cycle->Some_0;
                    if c.coordinates.contains(field) && c.indexes[c.position(field)].contains(
                        index,
                    ) {
                        self.board.lemma_sound_cycle_resolves(field, index);
                    }
                },
            }
        }
    }

    /// The game after an accepted move, and the cycle that the result
    /// carries, are determined by the game before it and the move.
    pub proof fn lemma_move_determined(
        self,
        player_move: Move,
        symbol: PlayerSymbol,
        one: GameView,
        one_result: GameResult,
        other: GameView,
        other_result: GameResult,
    )
        requires
            self.board.wf(),
            self.move_error(player_move, symbol) is None,
            self.moved(one, one_result, player_move, symbol),
            self.moved(other, other_result, player_move, symbol),
        ensures
            one == other,
            one_result.cycle() == other_result.cycle(),
            one_result is GameEnd ==> one_result == other_result,
            one_result is NextTurn ==> one_result == other_result,
            one_result is TurnAfterCollapse ==> one_result == other_result,
    {
        match player_move {
            Move::Mark { field1, field2 } => {
                self.board.lemma_mark_determined(
                    field1,
                    field2,
                    symbol,
                    self.status.turn as usize,
                    one.board,
                    one_result.cycle(),
                    other.board,
                    other_result.cycle(),
                );
            },
            Move::Collapse { field, index } => {
                self.board.lemma_collapse_determined(one.board, other.board, field, index);
            },
        }
    }
}

impl View for Game {
    type V = GameView;

    closed spec fn view(&self) -> GameView {
        GameView { board: self.board@, status: self.game_status@ }
    }
}

impl Default for Game {
    fn default() -> (r: Self)
        ensures
            r.wf(),
            r@ == GameView::fresh(crate::DEFAULT_BOARD_SIZE as nat),
    {
        assert(crate::DEFAULT_BOARD_SIZE * crate::DEFAULT_BOARD_SIZE == 9) by (nonlinear_arith)
            requires
                crate::DEFAULT_BOARD_SIZE == 3,
        ;
        Game::new(crate::DEFAULT_BOARD_SIZE)
    }
}

impl Game {
    /// What holds of every game: its board is well formed, and the game is
    /// sound.
    pub closed spec fn wf(&self) -> bool {
        self.board.wf() && self@.sound()
    }

    /// A well-formed game is sound, and its board is well formed, as
    /// mathematical values.
    pub proof fn lemma_wf_view(&self)
        requires
            self.wf(),
        ensures
            self@.board.wf(),
            self@.sound(),
    {
        self.board.lemma_wf_view();
    }

    pub fn new(size: usize) -> (r: Self)
        requires
            size * size <= usize::MAX,
        ensures
            r.wf(),
            r@ == GameView::fresh(size as nat),
    {
        Game { board: Board::new(size), game_status: GameStatus::new() }
    }

    /// Makes the move of the player with `player_symbol`, if the game accepts
    /// it. A refused move changes nothing.
    pub fn player_move(&mut self, player_move: Move, player_symbol: PlayerSymbol) -> (r: Result<
        GameResult,
        GameError,
    >)
        requires
            old(self).wf(),
        ensures
            final(self).wf(),
            r matches Err(e) ==> old(self)@.move_error(player_move, player_symbol) == Some(e)
                && final(self)@ == old(self)@,
            r matches Ok(result) ==> old(self)@.move_error(player_move, player_symbol) is None
                && old(self)@.moved(final(self)@, result, player_move, player_symbol),
            r matches Err(GameError::MakingMoveError(e)) ==> GameView::may_refuse(
                player_move,
                e.kind,
            ),
    {
        proof {
            self.board.lemma_wf_view();
            self@.lemma_refusals(player_move, player_symbol);
        }
        if self.game_status.is_game_end() {
            return Err(GameError::MoveAfterEnd);
        }
        if !self.game_status.is_player_turn(player_symbol) {
            return Err(GameError::PlayerTurnError);
        }
        if !self.game_status.is_good_move_type(&player_move) {
            return Err(GameError::MoveTypeError);
        }
        match player_move {
            Move::Mark { field1, field2 } => {
                let turn = self.game_status.get_turn();
                let ghost before = self.board@;
                let cycle = match self.board.mark(&[field1, field2], player_symbol, turn) {
                    Ok(cycle) => cycle,
                    Err(e) => {
                        return Err(GameError::MakingMoveError(e));
                    },
                };
                proof {
                    old(self).board.lemma_wf_view();
                    self.board.lemma_wf_view();
                    before.lemma_mark_in_turn(
                        self.board@,
                        field1,
                        field2,
                        player_symbol,
                        turn,
                        view_of(cycle),
                    );
                    before.lemma_mark_counts(
                        self.board@,
                        field1,
                        field2,
                        player_symbol,
                        turn,
                        view_of(cycle),
                    );
                }
                self.game_status.next_turn(cycle.is_some());
                match cycle {
                    Some(cycle) => Ok(GameResult::NextTurnCycle(cycle)),
                    None => Ok(GameResult::NextTurn),
                }
            },
            Move::Collapse { field, index } => {
                match self.board.collapse(field, index) {
                    Ok(()) => {},
                    Err(e) => {
                        return Err(GameError::MakingMoveError(e));
                    },
                }
                proof {
                    old(self).board.lemma_wf_view();
                    self.board.lemma_wf_view();
                    old(self).board@.lemma_collapse_counts(self.board@, field, index);
                }
                self.game_status.next_turn(false);
                let (is_end, winner) = self.check_end();
                if is_end {
                    self.game_status.set_end(winner);
                    Ok(GameResult::GameEnd(winner))
                } else {
                    Ok(GameResult::TurnAfterCollapse)
                }
            },
        }
    }

    pub fn get_status(&self) -> (r: &GameStatus)
        ensures
            r@ == self@.status,
    {
        &self.game_status
    }

    pub fn get_board(&self) -> (r: &Board)
        ensures
            r@ == self@.board,
            self.wf() ==> r.wf(),
    {
        &self.board
    }

    /// Ends the game with `winner`, whatever stands on the board.
    pub fn end_game(&mut self, winner: Option<PlayerSymbol>) -> (r: Result<GameResult, GameError>)
        ensures
            r == Ok::<GameResult, GameError>(GameResult::GameEnd(winner)),
            final(self)@.board == old(self)@.board,
            final(self)@.status == old(self)@.status.ended(winner),
            old(self).wf() ==> final(self).wf(),
    {
        self.game_status.set_end(winner);
        Ok(GameResult::GameEnd(winner))
    }

    /// Whether a line of the board is complete, and the winner if there is
    /// one.
    fn check_end(&self) -> (r: (bool, Option<PlayerSymbol>))
        requires
            self.wf(),
        ensures
            r.0 == self@.board.lines().any(),
            r.1 == if self@.board.lines().any() {
                self@.board.lines().winner()
            } else {
                None
            },
    {
        let lines_result = self.board.check_all_lines();
        if lines_result.is_full_line() {
            (true, lines_result.get_winner())
        } else {
            (false, None)
        }
    }
}

} // verus!
