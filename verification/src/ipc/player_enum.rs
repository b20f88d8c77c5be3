use vstd::prelude::*;

verus! {

/// One of the two players of a game, whichever symbol they play.
#[derive(Debug, Clone, Copy, PartialEq, Eq, Structural)]
pub enum Player {
    Player1,
    Player2,
}

impl Player {
    /// The player that a draw between the two picks: the second for 1, the
    /// first for anything else.
    pub open spec fn picked(draw: int) -> Player {
        if draw == 1 {
            Player::Player2
        } else {
            Player::Player1
        }
    }

    /// The player that a draw between the two picks: the second for 1, the
    /// first for anything else.
    pub fn drawn(draw: i32) -> (r: Player)
        ensures
            r == Self::picked(draw as int),
    {
        match draw {
            1 => Player::Player2,
            _ => Player::Player1,
        }
    }
}

} // verus!
