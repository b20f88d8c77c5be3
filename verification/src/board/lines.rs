//! The rows, columns and diagonals of a board, and who owns them.

use vstd::prelude::*;
use crate::board::lines_result::LinesResultView;
use crate::board::view::BoardView;
use crate::field::{Field, FieldView};
use crate::player_symbol::PlayerSymbol;

verus! {

/// The symbol that owns a line of cells: the one that every cell of the line
/// is collapsed to. A line with an entangled cell, with cells of both
/// symbols, or with no cell at all has no owner.
pub open spec fn line_owner(line: Seq<FieldView>) -> Option<PlayerSymbol> {
    if line.len() > 0 && line[0] is Collapsed && (forall|i: int|
        0 <= i < line.len() ==> #[trigger] line[i] == line[0]) {
        Some(line[0]->Collapsed_0)
    } else {
        None
    }
}

/// The owners of those of `lines` that have one, in the order of the lines.
pub open spec fn owners(lines: Seq<Seq<FieldView>>) -> Seq<PlayerSymbol>
    decreases lines.len(),
{
    if lines.len() == 0 {
        Seq::empty()
    } else {
        match line_owner(lines.last()) {
            Some(symbol) => owners(lines.drop_last()).push(symbol),
            None => owners(lines.drop_last()),
        }
    }
}

/// How many of `winners` each symbol has.
pub open spec fn tally(winners: Seq<PlayerSymbol>) -> LinesResultView
    decreases winners.len(),
{
    if winners.len() == 0 {
        LinesResultView { x: 0, o: 0 }
    } else {
        tally(winners.drop_last()).increased(winners.last())
    }
}

/// What the cells that `line` refers to hold.
pub open spec fn line_view(line: Seq<&Field>) -> Seq<FieldView> {
    Seq::new(line.len(), |i: int| line[i]@)
}

/// How many of `lines` the symbol `symbol` owns.
pub open spec fn owned(lines: Seq<Seq<FieldView>>, symbol: PlayerSymbol) -> nat
    decreases lines.len(),
{
    if lines.len() == 0 {
        0
    } else if line_owner(lines.last()) == Some(symbol) {
        owned(lines.drop_last(), symbol) + 1
    } else {
        owned(lines.drop_last(), symbol)
    }
}

/// A line with an entangled cell has no owner.
pub proof fn lemma_entangled_cell_no_owner(line: Seq<FieldView>, i: int)
    requires
        0 <= i < line.len(),
        line[i] is Entangled,
    ensures
        line_owner(line) is None,
{
}

/// A line with cells of both symbols has no owner.
pub proof fn lemma_mixed_line_no_owner(line: Seq<FieldView>, i: int, j: int)
    requires
        0 <= i < line.len(),
        0 <= j < line.len(),
        line[i] != line[j],
    ensures
        line_owner(line) is None,
{
}

/// A line whose cells are all collapsed to one symbol is owned by that
/// symbol.
pub proof fn lemma_uniform_line_owner(line: Seq<FieldView>, symbol: PlayerSymbol)
    requires
        line.len() > 0,
        forall|i: int| 0 <= i < line.len() ==> line[i] == FieldView::Collapsed(symbol),
    ensures
        line_owner(line) == Some(symbol),
{
}

/// The tally of two lists of winners is the sum of their tallies.
pub proof fn lemma_tally_add(
    first: Seq<PlayerSymbol>,
    second: Seq<PlayerSymbol>,
    symbol: PlayerSymbol,
)
    ensures
        tally(first + second).count(symbol) == tally(first).count(symbol) + tally(second).count(
            symbol,
        ),
    decreases second.len(),
{
    if second.len() == 0 {
        assert(first + second =~= first);
    } else {
        assert((first + second).drop_last() =~= first + second.drop_last());
        assert((first + second).last() == second.last());
        lemma_tally_add(first, second.drop_last(), symbol);
    }
}

/// The tally of the owners of some lines counts, for each symbol, the lines
/// that the symbol owns.
pub proof fn lemma_tally_owned(lines: Seq<Seq<FieldView>>, symbol: PlayerSymbol)
    ensures
        tally(owners(lines)).count(symbol) == owned(lines, symbol),
    decreases lines.len(),
{
    if lines.len() > 0 {
        lemma_tally_owned(lines.drop_last(), symbol);
        match line_owner(lines.last()) {
            Some(owner) => {
                let rest = owners(lines.drop_last());
                assert(rest.push(owner).drop_last() =~= rest);
            },
            None => {},
        }
    }
}

/// A symbol that owns one of some lines owns at least one of them.
pub proof fn lemma_owned_counts(lines: Seq<Seq<FieldView>>, i: int, symbol: PlayerSymbol)
    requires
        0 <= i < lines.len(),
        line_owner(lines[i]) == Some(symbol),
    ensures
        owned(lines, symbol) >= 1,
    decreases lines.len(),
{
    if i < lines.len() - 1 {
        lemma_owned_counts(lines.drop_last(), i, symbol);
    }
}

/// A symbol that owns none of some lines has a count of zero.
pub proof fn lemma_unowned_counts(lines: Seq<Seq<FieldView>>, symbol: PlayerSymbol)
    requires
        forall|i: int| 0 <= i < lines.len() ==> line_owner(#[trigger] lines[i]) != Some(symbol),
    ensures
        owned(lines, symbol) == 0,
    decreases lines.len(),
{
    if lines.len() > 0 {
        assert forall|i: int| 0 <= i < lines.drop_last().len() implies line_owner(
            #[trigger] lines.drop_last()[i],
        ) != Some(symbol) by {
            assert(lines.drop_last()[i] == lines[i]);
        }
        lemma_unowned_counts(lines.drop_last(), symbol);
        assert(lines.last() == lines[lines.len() - 1]);
    }
}

/// Lines have at most as many owners as there are lines.
pub proof fn lemma_owners_len(lines: Seq<Seq<FieldView>>)
    ensures
        owners(lines).len() <= lines.len(),
    decreases lines.len(),
{
    if lines.len() > 0 {
        lemma_owners_len(lines.drop_last());
    }
}

/// A tally counts every winner once.
pub proof fn lemma_tally_total(winners: Seq<PlayerSymbol>)
    ensures
        tally(winners).x + tally(winners).o == winners.len(),
    decreases winners.len(),
{
    if winners.len() > 0 {
        lemma_tally_total(winners.drop_last());
    }
}

/// A board that the machine can hold has fewer lines than the machine can
/// count.
pub proof fn lemma_lines_fit(size: int)
    requires
        0 <= size,
        size * size <= usize::MAX,
    ensures
        2 * size + 2 <= usize::MAX,
{
    if size >= 3 {
        assert(2 * size + 2 <= size * size) by (nonlinear_arith)
            requires
                size >= 3,
        ;
    }
}

impl BoardView {
    /// The count of a symbol is the number of rows, columns and diagonals
    /// that it owns.
    pub proof fn lemma_lines_count(self, symbol: PlayerSymbol)
        ensures
            self.lines().count(symbol) == owned(self.rows(), symbol) + owned(
                self.columns(),
                symbol,
            ) + owned(self.diagonals(), symbol),
    {
        lemma_tally_add(
            owners(self.rows()) + owners(self.columns()),
            owners(self.diagonals()),
            symbol,
        );
        lemma_tally_add(owners(self.rows()), owners(self.columns()), symbol);
        lemma_tally_owned(self.rows(), symbol);
        lemma_tally_owned(self.columns(), symbol);
        lemma_tally_owned(self.diagonals(), symbol);
    }

    /// While no row, column or diagonal has an owner, as while each of them
    /// still has an entangled cell, no line is complete and there is no
    /// winner.
    pub proof fn lemma_no_owner_no_winner(self)
        requires
            forall|i: int|
                0 <= i < self.all_lines().len() ==> line_owner(#[trigger] self.all_lines()[i])
                    is None,
        ensures
            self.lines().x == 0,
            self.lines().o == 0,
            !self.lines().any(),
            self.lines().winner() is None,
    {
        let all = self.all_lines();
        let rows = self.rows();
        let columns = self.columns();
        let diagonals = self.diagonals();
        assert forall|i: int| 0 <= i < rows.len() implies line_owner(#[trigger] rows[i])
            is None by {
            assert(all[i] == rows[i]);
        }
        assert forall|i: int| 0 <= i < columns.len() implies line_owner(#[trigger] columns[i])
            is None by {
            assert(all[rows.len() + i] == columns[i]);
        }
        assert forall|i: int| 0 <= i < diagonals.len() implies line_owner(
            #[trigger] diagonals[i],
        ) is None by {
            assert(all[rows.len() + columns.len() + i] == diagonals[i]);
        }
        self.lemma_lines_count(PlayerSymbol::X);
        self.lemma_lines_count(PlayerSymbol::O);
        lemma_unowned_counts(rows, PlayerSymbol::X);
        lemma_unowned_counts(columns, PlayerSymbol::X);
        lemma_unowned_counts(diagonals, PlayerSymbol::X);
        lemma_unowned_counts(rows, PlayerSymbol::O);
        lemma_unowned_counts(columns, PlayerSymbol::O);
        lemma_unowned_counts(diagonals, PlayerSymbol::O);
    }

    /// Once a row, a column or a diagonal is owned by a symbol, as once all
    /// its cells are collapsed to that symbol, a line is complete and counts
    /// for the symbol; the symbol wins where the other owns no line.
    pub proof fn lemma_owner_counts(self, i: int, symbol: PlayerSymbol)
        requires
            0 <= i < self.all_lines().len(),
            line_owner(self.all_lines()[i]) == Some(symbol),
        ensures
            self.lines().count(symbol) >= 1,
            self.lines().any(),
            self.lines().count(symbol.opposite()) == 0 ==> self.lines().winner() == Some(symbol),
    {
        let rows = self.rows();
        let columns = self.columns();
        let diagonals = self.diagonals();
        self.lemma_lines_count(symbol);
        if i < rows.len() {
            assert(self.all_lines()[i] == rows[i]);
            lemma_owned_counts(rows, i, symbol);
        } else if i < rows.len() + columns.len() {
            assert(self.all_lines()[i] == columns[i - rows.len()]);
            lemma_owned_counts(columns, i - rows.len(), symbol);
        } else {
            assert(self.all_lines()[i] == diagonals[i - rows.len() - columns.len()]);
            lemma_owned_counts(diagonals, i - rows.len() - columns.len(), symbol);
        }
    }
}

} // verus!
