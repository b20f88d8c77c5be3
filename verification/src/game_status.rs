//! The status of a game: turn, player to move, kind of move that is due, and
//! how the game ended.

use vstd::prelude::*;
use crate::move_type::MoveType;
use crate::player_move::Move;
use crate::player_symbol::PlayerSymbol;

verus! {

/// Where a game stands: the turn counter, who moves, which kind of move is
/// expected, and whether and how the game has ended.
#[derive(Debug, Clone, Copy, PartialEq, Eq, Structural)]
pub struct GameStatus {
    turn: usize,
    player_turn: PlayerSymbol,
    move_type: MoveType,
    is_end: bool,
    winner: Option<PlayerSymbol>,
}

/// The status as a mathematical value.
pub struct GameStatusView {
    pub turn: nat,
    pub player_turn: PlayerSymbol,
    pub move_type: MoveType,
    pub is_end: bool,
    pub winner: Option<PlayerSymbol>,
}

impl GameStatusView {
    /// The status at the start of a game: turn 0, X to mark, not ended.
    pub open spec fn initial() -> GameStatusView {
        GameStatusView {
            turn: 0,
            player_turn: PlayerSymbol::X,
            move_type: MoveType::Mark,
            is_end: false,
            winner: None,
        }
    }

    /// The status after an accepted move. A collapse only sets the expected
    /// kind back to a mark. A mark advances the turn and passes the move to
    /// the other player; if it closed a cycle (`cycle_formed`), a collapse is
    /// expected next.
    pub open spec fn advanced(self, cycle_formed: bool) -> GameStatusView {
        match self.move_type {
            MoveType::Collapse => GameStatusView { move_type: MoveType::Mark, ..self },
            MoveType::Mark => GameStatusView {
                turn: self.turn + 1,
                player_turn: self.player_turn.opposite(),
                move_type: if cycle_formed {
                    MoveType::Collapse
                } else {
                    MoveType::Mark
                },
                ..self
            },
        }
    }

    /// The status after the game was ended with `winner`.
    pub open spec fn ended(self, winner: Option<PlayerSymbol>) -> GameStatusView {
        GameStatusView { is_end: true, winner, ..self }
    }
}

impl View for GameStatus {
    type V = GameStatusView;

    closed spec fn view(&self) -> GameStatusView {
        GameStatusView {
            turn: self.turn as nat,
            player_turn: self.player_turn,
            move_type: self.move_type,
            is_end: self.is_end,
            winner: self.winner,
        }
    }
}

impl Default for GameStatus {
    fn default() -> (r: Self)
        ensures
            r@ == GameStatusView::initial(),
    {
        Self::new()
    }
}

impl GameStatus {
    pub fn new() -> (r: Self)
        ensures
            r@ == GameStatusView::initial(),
    {
        GameStatus {
            turn: 0,
            player_turn: PlayerSymbol::X,
            move_type: MoveType::Mark,
            is_end: false,
            winner: None,
        }
    }

    pub fn next_turn(&mut self, is_collapsed: bool)
        requires
            old(self)@.move_type == MoveType::Mark ==> old(self)@.turn < usize::MAX,
        ensures
            final(self)@ == old(self)@.advanced(is_collapsed),
    {
        if self.move_type == MoveType::Collapse {
            self.move_type = MoveType::Mark;
        } else {
            self.turn += 1;
            self.player_turn = PlayerSymbol::opposite_symbol(self.player_turn);
            if is_collapsed {
                self.move_type = MoveType::Collapse;
            }
        }
    }

    pub fn is_game_end(&self) -> (r: bool)
        ensures
            r == self@.is_end,
    {
        self.is_end
    }

    pub fn is_player_turn(&self, player_symbol: PlayerSymbol) -> (r: bool)
        ensures
            r == (self@.player_turn == player_symbol),
    {
        self.player_turn == player_symbol
    }

    pub fn is_good_move_type(&self, player_move: &Move) -> (r: bool)
        ensures
            r == (self@.move_type == player_move.kind()),
    {
        match player_move {
            Move::Collapse { .. } => self.move_type == MoveType::Collapse,
            Move::Mark { .. } => self.move_type == MoveType::Mark,
        }
    }

    pub fn get_turn(&self) -> (r: usize)
        ensures
            r == self@.turn,
    {
        self.turn
    }

    pub fn set_end(&mut self, winner: Option<PlayerSymbol>)
        ensures
            final(self)@ == old(self)@.ended(winner),
    {
        self.is_end = true;
        self.winner = winner;
    }

    /// The winner that the game ended with, if it ended with one.
    pub fn get_winner(&self) -> (r: Option<PlayerSymbol>)
        ensures
            r == self@.winner,
    {
        self.winner
    }
}

} // verus!
