//! The tally of completed lines.

use vstd::prelude::*;
use crate::player_symbol::PlayerSymbol;

verus! {

/// How many completed lines each symbol has.
#[derive(Debug, Clone, Copy, PartialEq, Eq, Structural)]
pub struct LinesResult {
    x: usize,
    o: usize,
}

/// The tally as a mathematical value.
pub struct LinesResultView {
    pub x: nat,
    pub o: nat,
}

impl LinesResultView {
    /// The tally with one more line for `symbol`.
    pub open spec fn increased(self, symbol: PlayerSymbol) -> LinesResultView {
        match symbol {
            PlayerSymbol::X => LinesResultView { x: self.x + 1, o: self.o },
            PlayerSymbol::O => LinesResultView { x: self.x, o: self.o + 1 },
        }
    }

    /// The lines of `symbol`.
    pub open spec fn count(self, symbol: PlayerSymbol) -> nat {
        match symbol {
            PlayerSymbol::X => self.x,
            PlayerSymbol::O => self.o,
        }
    }

    /// Whether any line is complete.
    pub open spec fn any(self) -> bool {
        self.x != 0 || self.o != 0
    }

    /// The symbol with more lines, if there is one.
    pub open spec fn winner(self) -> Option<PlayerSymbol> {
        if self.x > self.o {
            Some(PlayerSymbol::X)
        } else if self.o > self.x {
            Some(PlayerSymbol::O)
        } else {
            None
        }
    }
}

impl View for LinesResult {
    type V = LinesResultView;

    closed spec fn view(&self) -> LinesResultView {
        LinesResultView { x: self.x as nat, o: self.o as nat }
    }
}

impl Default for LinesResult {
    fn default() -> (r: Self)
        ensures
            r@ == (LinesResultView { x: 0, o: 0 }),
    {
        Self::new()
    }
}

impl LinesResult {
    pub fn new() -> (r: LinesResult)
        ensures
            r@ == (LinesResultView { x: 0, o: 0 }),
    {
        LinesResult { x: 0, o: 0 }
    }

    pub fn increase(&mut self, player_symbol: PlayerSymbol)
        requires
            old(self)@.count(player_symbol) < usize::MAX,
        ensures
            final(self)@ == old(self)@.increased(player_symbol),
    {
        match player_symbol {
            PlayerSymbol::X => self.x += 1,
            PlayerSymbol::O => self.o += 1,
        }
    }

    pub fn is_full_line(&self) -> (r: bool)
        ensures
            r == self@.any(),
    {
        self.x != 0 || self.o != 0
    }

    pub fn get_winner(&self) -> (r: Option<PlayerSymbol>)
        ensures
            r == self@.winner(),
    {
        if self.x > self.o {
            return Some(PlayerSymbol::X);
        }
        if self.o > self.x {
            return Some(PlayerSymbol::O);
        }
        None
    }

    /// The lines of `player_symbol`.
    pub fn count(&self, player_symbol: PlayerSymbol) -> (r: usize)
        ensures
            r == self@.count(player_symbol),
    {
        match player_symbol {
            PlayerSymbol::X => self.x,
            PlayerSymbol::O => self.o,
        }
    }
}

} // verus!
