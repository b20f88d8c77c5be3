//! The two symbols.

use vstd::prelude::*;

verus! {

/// One of the two marks a player can place.
#[derive(Copy, Clone, PartialEq, Eq, Structural, Debug, Hash)]
pub enum PlayerSymbol {
    X,
    O,
}

impl PlayerSymbol {
    /// The symbol of the other player.
    pub open spec fn opposite(self) -> PlayerSymbol {
        match self {
            PlayerSymbol::X => PlayerSymbol::O,
            PlayerSymbol::O => PlayerSymbol::X,
        }
    }

    pub fn opposite_symbol(player_symbol: PlayerSymbol) -> (r: PlayerSymbol)
        ensures
            r == player_symbol.opposite(),
    {
        match player_symbol {
            PlayerSymbol::O => PlayerSymbol::X,
            PlayerSymbol::X => PlayerSymbol::O,
        }
    }

    /// The letter that stands for the symbol.
    pub fn letter(&self) -> (r: &'static str)
        ensures
            r@ == (match *self {
                PlayerSymbol::X => "X"@,
                PlayerSymbol::O => "O"@,
            }),
    {
        match self {
            PlayerSymbol::X => "X",
            PlayerSymbol::O => "O",
        }
    }
}

/// Taking the opposite twice gives the symbol back, and the opposite is never
/// the symbol itself: there are exactly two symbols.
pub proof fn lemma_opposite_involution(s: PlayerSymbol)
    ensures
        s.opposite().opposite() == s,
        s.opposite() != s,
{
}

} // verus!
