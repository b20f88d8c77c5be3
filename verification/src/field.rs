//! The cells of the board.

use vstd::prelude::*;
use crate::player_symbol::PlayerSymbol;

verus! {

/// The state of one cell.
///
/// An entangled cell keeps one slot for each turn of the game; slot `t` holds
/// the symbol of the joint mark that touched the cell on turn `t`. A collapsed
/// cell holds its final symbol and never changes again.
#[derive(Clone, PartialEq, Eq, Debug, Hash)]
pub enum Field {
    Entangled(Vec<Option<PlayerSymbol>>),
    Collapsed(PlayerSymbol),
}

/// What a cell holds, as a mathematical value.
pub enum FieldView {
    Entangled(Seq<Option<PlayerSymbol>>),
    Collapsed(PlayerSymbol),
}

impl View for Field {
    type V = FieldView;

    open spec fn view(&self) -> FieldView {
        match self {
            Field::Entangled(slots) => FieldView::Entangled(slots@),
            Field::Collapsed(symbol) => FieldView::Collapsed(*symbol),
        }
    }
}

impl FieldView {
    /// An entangled cell with `slots` slots, none of them marked.
    pub open spec fn empty(slots: nat) -> FieldView {
        FieldView::Entangled(Seq::new(slots, |t: int| None::<PlayerSymbol>))
    }

    /// The cell after a joint mark of `symbol` on turn `turn` touched it. A
    /// collapsed cell stays as it is.
    pub open spec fn marked(self, turn: int, symbol: PlayerSymbol) -> FieldView {
        match self {
            FieldView::Entangled(slots) => FieldView::Entangled(slots.update(turn, Some(symbol))),
            FieldView::Collapsed(s) => self,
        }
    }

    /// The symbol that the cell recorded on turn `turn`, if it is entangled
    /// and was touched on that turn.
    pub open spec fn symbol_at(self, turn: int) -> Option<PlayerSymbol> {
        match self {
            FieldView::Entangled(slots) => if 0 <= turn < slots.len() {
                slots[turn]
            } else {
                None
            },
            FieldView::Collapsed(s) => None,
        }
    }
}

impl Field {
    /// An entangled cell with `slots` slots, none of them marked.
    pub fn entangled(slots: usize) -> (r: Field)
        ensures
            r@ == FieldView::empty(slots as nat),
    {
        let marks: Vec<Option<PlayerSymbol>> = vec![None; slots];
        assert(marks@ =~= Seq::new(slots as nat, |t: int| None::<PlayerSymbol>));
        Field::Entangled(marks)
    }

    /// The cell after a joint mark of `symbol` on turn `turn` touched it.
    pub fn with_mark(&self, turn: usize, symbol: PlayerSymbol) -> (r: Field)
        requires
            self@ matches FieldView::Entangled(slots) ==> turn < slots.len(),
        ensures
            r@ == self@.marked(turn as int, symbol),
    {
        match self {
            Field::Entangled(slots) => {
                let mut marks: Vec<Option<PlayerSymbol>> = Vec::new();
                let mut t: usize = 0;
                while t < slots.len()
                    invariant
                        t <= slots.len(),
                        turn < slots.len(),
                        marks@ == slots@.update(turn as int, Some(symbol)).subrange(0, t as int),
                    decreases slots.len() - t,
                {
                    if t == turn {
                        marks.push(Some(symbol));
                    } else {
                        marks.push(slots[t]);
                    }
                    t += 1;
                    assert(marks@ =~= slots@.update(turn as int, Some(symbol)).subrange(
                        0,
                        t as int,
                    ));
                }
                assert(marks@ =~= slots@.update(turn as int, Some(symbol)));
                Field::Entangled(marks)
            },
            Field::Collapsed(symbol) => Field::Collapsed(*symbol),
        }
    }

    /// A copy of the cell.
    pub fn duplicate(&self) -> (r: Field)
        ensures
            r@ == self@,
    {
        match self {
            Field::Entangled(slots) => {
                let mut marks: Vec<Option<PlayerSymbol>> = Vec::new();
                let mut t: usize = 0;
                while t < slots.len()
                    invariant
                        t <= slots.len(),
                        marks@ == slots@.subrange(0, t as int),
                    decreases slots.len() - t,
                {
                    marks.push(slots[t]);
                    t += 1;
                    assert(marks@ =~= slots@.subrange(0, t as int));
                }
                assert(slots@.subrange(0, t as int) =~= slots@);
                Field::Entangled(marks)
            },
            Field::Collapsed(symbol) => Field::Collapsed(*symbol),
        }
    }

    /// The symbol recorded on turn `turn`, if the cell is entangled and was
    /// touched on that turn.
    pub fn symbol_at(&self, turn: usize) -> (r: Option<PlayerSymbol>)
        ensures
            r == self@.symbol_at(turn as int),
    {
        match self {
            Field::Entangled(slots) => if turn < slots.len() {
                slots[turn]
            } else {
                None
            },
            Field::Collapsed(_) => None,
        }
    }

    /// Whether the cell is still entangled.
    pub fn is_entangled(&self) -> (r: bool)
        ensures
            r == (self@ is Entangled),
    {
        match self {
            Field::Entangled(_) => true,
            Field::Collapsed(_) => false,
        }
    }
}

} // verus!
