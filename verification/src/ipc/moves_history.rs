use vstd::prelude::*;
use crate::player_move::Move;
use crate::player_symbol::PlayerSymbol;
use std::time::Duration;

verus! {

/// The moves of a game in the order in which they were made, each with the
/// symbol that made it and the time it took.
#[derive(Debug)]
pub struct MovesHistory {
    game_uuid: u128,
    board_size: usize,
    moves: Vec<(Move, PlayerSymbol)>,
    durations: Vec<Duration>,
}

/// A history of moves as a mathematical value.
pub struct MovesHistoryView {
    pub game_uuid: u128,
    pub board_size: nat,
    pub moves: Seq<(Move, PlayerSymbol)>,
    pub durations: Seq<Duration>,
}

impl View for MovesHistory {
    type V = MovesHistoryView;

    closed spec fn view(&self) -> MovesHistoryView {
        MovesHistoryView {
            game_uuid: self.game_uuid,
            board_size: self.board_size as nat,
            moves: self.moves@,
            durations: self.durations@,
        }
    }
}

impl MovesHistory {
    pub fn add_move(&mut self, player_move: Move, duration: Duration, player: PlayerSymbol)
        ensures
            final(self)@ == (MovesHistoryView {
                moves: old(self)@.moves.push((player_move, player)),
                durations: old(self)@.durations.push(duration),
                ..old(self)@
            }),
    {
        self.moves.push((player_move, player));
        self.durations.push(duration);
    }

    /// The history of a game on a board of side `size` in which no move was
    /// made. Room is set aside for one and a half times `size` moves, a
    /// number that the machine has to be able to count to.
    pub fn new(game_uuid: u128, size: usize) -> (r: Self)
        requires
            size + size / 2 <= usize::MAX,
        ensures
            r@ == (MovesHistoryView {
                game_uuid,
                board_size: size as nat,
                moves: Seq::empty(),
                durations: Seq::empty(),
            }),
    {
        Self {
            game_uuid,
            board_size: size,
            moves: Vec::with_capacity(size + size / 2),
            durations: Vec::with_capacity(size + size / 2),
        }
    }

    pub fn game_uuid(&self) -> (r: u128)
        ensures
            r == self@.game_uuid,
    {
        self.game_uuid
    }

    pub fn board_size(&self) -> (r: usize)
        ensures
            r == self@.board_size,
    {
        self.board_size
    }

    pub fn moves(&self) -> (r: &Vec<(Move, PlayerSymbol)>)
        ensures
            r@ == self@.moves,
    {
        &self.moves
    }

    pub fn durations(&self) -> (r: &Vec<Duration>)
        ensures
            r@ == self@.durations,
    {
        &self.durations
    }
}

} // verus!
