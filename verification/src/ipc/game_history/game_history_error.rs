use vstd::prelude::*;

verus! {

/// The moves of a history do not make a game: one of them was refused.
#[derive(Debug, Clone, Copy, PartialEq, Eq, Structural)]
pub struct GameHistoryError {}

} // verus!
