use vstd::prelude::*;
use crate::cycle::{Cycle, CycleView};
use crate::game::game_result;
use crate::player_symbol::PlayerSymbol;

verus! {

/// What an accepted move led to, as a client is told.
#[derive(Debug, PartialEq, Eq)]
pub enum GameResult {
    NextTurn,
    TurnAfterCollapse,
    NextTurnCycle(Cycle),
    GameEnd(Option<PlayerSymbol>),
}

/// What a client is told of a result, as a mathematical value.
pub enum GameResultView {
    NextTurn,
    TurnAfterCollapse,
    NextTurnCycle(CycleView),
    GameEnd(Option<PlayerSymbol>),
}

impl View for GameResult {
    type V = GameResultView;

    open spec fn view(&self) -> GameResultView {
        match self {
            GameResult::NextTurn => GameResultView::NextTurn,
            GameResult::TurnAfterCollapse => GameResultView::TurnAfterCollapse,
            GameResult::NextTurnCycle(c) => GameResultView::NextTurnCycle(c@),
            GameResult::GameEnd(winner) => GameResultView::GameEnd(*winner),
        }
    }
}

impl GameResult {
    /// What a client is told of the result `value`: the same, with the same
    /// cycle or winner.
    pub open spec fn of(value: game_result::GameResult) -> GameResultView {
        match value {
            game_result::GameResult::NextTurn => GameResultView::NextTurn,
            game_result::GameResult::TurnAfterCollapse => GameResultView::TurnAfterCollapse,
            game_result::GameResult::NextTurnCycle(c) => GameResultView::NextTurnCycle(c@),
            game_result::GameResult::GameEnd(winner) => GameResultView::GameEnd(winner),
        }
    }

    /// What a client is told of the result `value`.
    pub fn told(value: &game_result::GameResult) -> (r: Self)
        ensures
            r@ == Self::of(*value),
    {
        match value {
            game_result::GameResult::NextTurn => GameResult::NextTurn,
            game_result::GameResult::TurnAfterCollapse => GameResult::TurnAfterCollapse,
            game_result::GameResult::NextTurnCycle(v) => GameResult::NextTurnCycle(v.duplicate()),
            game_result::GameResult::GameEnd(v) => GameResult::GameEnd(*v),
        }
    }
}

impl From<&game_result::GameResult> for GameResult {
    fn from(value: &game_result::GameResult) -> (r: Self) {
        GameResult::told(value)
    }
}

/// The conversion makes a copy of the cycle, so its result is described by
/// what it holds, as `told` does, and not as a value.
impl vstd::std_specs::convert::FromSpecImpl<&game_result::GameResult> for GameResult {
    open spec fn obeys_from_spec() -> bool {
        false
    }

    open spec fn from_spec(value: &game_result::GameResult) -> GameResult {
        arbitrary()
    }
}

} // verus!
