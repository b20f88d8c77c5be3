//! What an accepted move leads to.

use vstd::prelude::*;
use crate::cycle::{Cycle, CycleView};
use crate::player_symbol::PlayerSymbol;

verus! {

/// What an accepted move led to.
#[derive(Debug, PartialEq, Eq)]
pub enum GameResult {
    /// The mark closed no cycle; the other player marks next.
    NextTurn,
    /// The cycle is resolved and no line is complete; the game goes on.
    TurnAfterCollapse,
    /// The mark closed this cycle; the other player resolves it next.
    NextTurnCycle(Cycle),
    /// The game has ended, with this winner or with none.
    GameEnd(Option<PlayerSymbol>),
}

impl GameResult {
    /// The cycle that the result carries, if it carries one.
    pub open spec fn cycle(self) -> Option<CycleView> {
        match self {
            GameResult::NextTurnCycle(c) => Some(c@),
            _ => None,
        }
    }
}

} // verus!
